//! Talking to the gateway.

use crate::api::ApiError;
use crate::number;
use crate::text;
use vstd::prelude::*;

verus! {

#[derive(Debug, Clone)]
pub enum ClientError {
    Transport { url: String, source: String },
    Unauthorized,
    Api { status: u16, message: String },
}

/// What a [`ClientError`] says.
pub enum ClientErrorModel {
    Transport { url: Seq<char>, source: Seq<char> },
    Unauthorized,
    Api { status: u16, message: Seq<char> },
}

impl View for ClientError {
    type V = ClientErrorModel;

    open spec fn view(&self) -> ClientErrorModel {
        match *self {
            ClientError::Transport { url, source } => ClientErrorModel::Transport {
                url: url@,
                source: source@,
            },
            ClientError::Unauthorized => ClientErrorModel::Unauthorized,
            ClientError::Api { status, message } => ClientErrorModel::Api {
                status,
                message: message@,
            },
        }
    }
}

/// How the error reads.
pub open spec fn client_error_text(e: ClientErrorModel) -> Seq<char> {
    match e {
        ClientErrorModel::Transport { url, source } => "could not reach the gateway at "@ + url
            + ": "@ + source,
        ClientErrorModel::Unauthorized =>
            "the gateway does not recognise this key; copy it again from the control panel"@,
        ClientErrorModel::Api { status, message } => "gateway returned "@ + number::decimal(
            status as nat,
        ) + ": "@ + message,
    }
}

impl ClientError {
    /// How the error reads.
    pub fn to_string(&self) -> (r: String)
        ensures
            r@ == client_error_text(self@),
    {
        match self {
            ClientError::Transport { url, source } => {
                let mut out = "could not reach the gateway at ".to_owned();
                out.append(url.as_str());
                out.append(": ");
                out.append(source.as_str());
                out
            },
            ClientError::Unauthorized => {
                "the gateway does not recognise this key; copy it again from the control panel".to_owned()
            },
            ClientError::Api { status, message } => {
                let mut out = "gateway returned ".to_owned();
                number::push_decimal(&mut out, *status as u64);
                out.append(": ");
                out.append(message.as_str());
                out
            },
        }
    }
}

/// A text without the slashes at its end.
pub open spec fn without_slashes(s: Seq<char>) -> Seq<char>
    decreases s.len(),
{
    if s.len() > 0 && s.last() == '/' {
        without_slashes(s.drop_last())
    } else {
        s
    }
}

/// The gateway's address as an operator wrote it, made ready for a path to
/// follow.
pub open spec fn base_url_of(written: Seq<char>) -> Seq<char> {
    without_slashes(text::trim(written))
}

/// Where the gateway is, and the key that this node authenticates with.
#[derive(Debug, Clone)]
pub struct GatewayClient {
    base_url: String,
    key: String,
}

impl GatewayClient {
    pub closed spec fn base(self) -> Seq<char> {
        self.base_url@
    }

    pub closed spec fn secret(self) -> Seq<char> {
        self.key@
    }

    pub fn new(base_url: &str, key: &str) -> (r: GatewayClient)
        ensures
            r.base() == base_url_of(base_url@),
            r.secret() == text::trim(key@),
    {
        let trimmed = text::trimmed(base_url);
        let chars = text::chars_of(trimmed.as_str());
        let mut n: usize = chars.len();
        proof {
            assert(chars@.take(n as int) =~= chars@);
        }
        while n > 0 && chars[n - 1] == '/'
            invariant
                n <= chars@.len(),
                without_slashes(chars@.take(n as int)) == without_slashes(chars@),
            decreases n,
        {
            proof {
                assert(chars@.take(n as int).drop_last() =~= chars@.take(n - 1));
            }
            n -= 1;
        }
        proof {
            assert(chars@.subrange(0, n as int) =~= chars@.take(n as int));
        }
        GatewayClient {
            base_url: text::substring(chars.as_slice(), 0, n),
            key: text::trimmed(key),
        }
    }

    pub fn base_url(&self) -> (r: &str)
        ensures
            r@ == self.base(),
    {
        self.base_url.as_str()
    }

    /// The key, without the whitespace that pasting often brings.
    pub fn key(&self) -> (r: &str)
        ensures
            r@ == self.secret(),
    {
        self.key.as_str()
    }

    /// Where this agent's freshly generated tunnel identity is announced.
    pub fn register_url(&self) -> (r: String)
        ensures
            r@ == self.base() + "/api/register"@,
    {
        let mut out = self.base_url.clone();
        out.append("/api/register");
        out
    }

    /// Where the full set of forwards this node should be serving is.
    pub fn assignment_url(&self) -> (r: String)
        ensures
            r@ == self.base() + "/api/assignment"@,
    {
        let mut out = self.base_url.clone();
        out.append("/api/assignment");
        out
    }
}

/// An address never ends in a slash, so a path that follows it is not
/// double-slashed.
pub proof fn law_base_url_has_no_trailing_slash(written: Seq<char>)
    ensures
        base_url_of(written).len() > 0 ==> base_url_of(written).last() != '/',
{
    lemma_no_trailing_slash(text::trim(written));
}

proof fn lemma_no_trailing_slash(s: Seq<char>)
    ensures
        without_slashes(s).len() > 0 ==> without_slashes(s).last() != '/',
    decreases s.len(),
{
    if s.len() > 0 && s.last() == '/' {
        lemma_no_trailing_slash(s.drop_last());
    }
}

// ---- answers ------------------------------------------------------------

/// What the body of an answer is read as.
#[derive(Debug, Clone, Copy, PartialEq, Eq, Structural)]
pub enum BodyKind {
    /// What was asked for.
    Value,
    /// Why it was refused.
    Refusal,
    /// It is not read.
    Nothing,
}

/// What the body of an answer with this status is read as.
pub open spec fn body_kind_of(status: u16) -> BodyKind {
    if 200 <= status < 300 {
        BodyKind::Value
    } else if status == 401 {
        BodyKind::Nothing
    } else {
        BodyKind::Refusal
    }
}

/// What the body of an answer with this status is read as.
pub fn body_kind(status: u16) -> (r: BodyKind)
    ensures
        r == body_kind_of(status),
{
    if 200 <= status && status < 300 {
        BodyKind::Value
    } else if status == 401 {
        BodyKind::Nothing
    } else {
        BodyKind::Refusal
    }
}

/// An answer, its body read as its status asks for.
#[derive(Debug)]
pub struct Answer<T> {
    pub status: u16,
    /// The status with its standard phrase.
    pub status_text: String,
    pub url: String,
    /// The body as the value asked for, or why it could not be read as one.
    pub value: Result<T, String>,
    /// The body as the gateway's own error, where it could be read as one.
    pub refusal: Option<ApiError>,
}

/// What an answer that is no success says.
pub open spec fn refusal_of<T>(answer: Answer<T>) -> ClientErrorModel {
    if answer.status == 401 {
        ClientErrorModel::Unauthorized
    } else {
        // The gateway's own error text is far more useful than a status code.
        ClientErrorModel::Api {
            status: answer.status,
            message: match answer.refusal {
                Some(e) => e.error@,
                None => answer.status_text@,
            },
        }
    }
}

/// The value in an answer, or what it says instead.
pub fn decode<T>(answer: Answer<T>) -> (r: Result<T, ClientError>)
    ensures
        if body_kind_of(answer.status) == BodyKind::Value {
            match answer.value {
                Ok(value) => r == Ok::<T, ClientError>(value),
                Err(source) => r is Err && r->Err_0@ == (ClientErrorModel::Transport {
                    url: answer.url@,
                    source: source@,
                }),
            }
        } else {
            r is Err && r->Err_0@ == refusal_of(answer)
        },
{
    match body_kind(answer.status) {
        BodyKind::Value => match answer.value {
            Ok(value) => Ok(value),
            Err(source) => Err(ClientError::Transport { url: answer.url, source }),
        },
        BodyKind::Nothing => Err(ClientError::Unauthorized),
        BodyKind::Refusal => {
            let message = match answer.refusal {
                Some(e) => e.error,
                None => answer.status_text,
            };
            Err(ClientError::Api { status: answer.status, message })
        },
    }
}

} // verus!
