use vstd::prelude::*;
use vstd::string::*;

use crate::text::concat;

verus! {

/// What can go wrong in a broker, a sidecar or an agent.
#[derive(Debug)]
pub enum DetourError {
    InvalidSessionId(String),
    InvalidAuthMode(String),
    SessionNotFound(String),
    SessionExpired(String),
    BrokerConnectionFailed(String),
    TunnelError(String),
    RelayError(String),
    RegistryError(String),
    AuthError(String),
    ConfigError(String),
    /// An error of another library, by its message.
    Other(String),
}

impl DetourError {
    /// What the message of an error says before its detail.
    pub open spec fn lead(&self) -> Seq<char> {
        match self {
            DetourError::InvalidSessionId(_) => "invalid session ID: "@,
            DetourError::InvalidAuthMode(_) => "invalid auth mode: "@,
            DetourError::SessionNotFound(_) => "session not found: "@,
            DetourError::SessionExpired(_) => "session expired: "@,
            DetourError::BrokerConnectionFailed(_) => "broker connection failed: "@,
            DetourError::TunnelError(_) => "tunnel error: "@,
            DetourError::RelayError(_) => "relay error: "@,
            DetourError::RegistryError(_) => "registry error: "@,
            DetourError::AuthError(_) => "auth error: "@,
            DetourError::ConfigError(_) => "config error: "@,
            DetourError::Other(_) => Seq::empty(),
        }
    }

    /// The detail of an error.
    pub open spec fn detail(&self) -> Seq<char> {
        match self {
            DetourError::InvalidSessionId(s) => s@,
            DetourError::InvalidAuthMode(s) => s@,
            DetourError::SessionNotFound(s) => s@,
            DetourError::SessionExpired(s) => s@,
            DetourError::BrokerConnectionFailed(s) => s@,
            DetourError::TunnelError(s) => s@,
            DetourError::RelayError(s) => s@,
            DetourError::RegistryError(s) => s@,
            DetourError::AuthError(s) => s@,
            DetourError::ConfigError(s) => s@,
            DetourError::Other(s) => s@,
        }
    }

    /// The message of an error.
    pub open spec fn message(&self) -> Seq<char> {
        self.lead() + self.detail()
    }

    /// The message of the error.
    pub fn to_string(&self) -> (r: String)
        ensures
            r@ == self.message(),
    {
        match self {
            DetourError::InvalidSessionId(s) => concat("invalid session ID: ", s.as_str()),
            DetourError::InvalidAuthMode(s) => concat("invalid auth mode: ", s.as_str()),
            DetourError::SessionNotFound(s) => concat("session not found: ", s.as_str()),
            DetourError::SessionExpired(s) => concat("session expired: ", s.as_str()),
            DetourError::BrokerConnectionFailed(s) => {
                concat("broker connection failed: ", s.as_str())
            },
            DetourError::TunnelError(s) => concat("tunnel error: ", s.as_str()),
            DetourError::RelayError(s) => concat("relay error: ", s.as_str()),
            DetourError::RegistryError(s) => concat("registry error: ", s.as_str()),
            DetourError::AuthError(s) => concat("auth error: ", s.as_str()),
            DetourError::ConfigError(s) => concat("config error: ", s.as_str()),
            DetourError::Other(s) => {
                let r = s.clone();
                assert(self.message() =~= s@);
                r
            },
        }
    }
}

/// The message of an error says what went wrong, and ends in its detail.
pub proof fn message_names_the_error(error: DetourError)
    ensures
        error matches DetourError::InvalidSessionId(s) ==> error.message()
            == "invalid session ID: "@ + s@,
        error matches DetourError::InvalidAuthMode(s) ==> error.message() == "invalid auth mode: "@
            + s@,
        error matches DetourError::SessionNotFound(s) ==> error.message() == "session not found: "@
            + s@,
        error matches DetourError::SessionExpired(s) ==> error.message() == "session expired: "@
            + s@,
        error matches DetourError::BrokerConnectionFailed(s) ==> error.message()
            == "broker connection failed: "@ + s@,
        error matches DetourError::TunnelError(s) ==> error.message() == "tunnel error: "@ + s@,
        error matches DetourError::RelayError(s) ==> error.message() == "relay error: "@ + s@,
        error matches DetourError::RegistryError(s) ==> error.message() == "registry error: "@ + s@,
        error matches DetourError::AuthError(s) ==> error.message() == "auth error: "@ + s@,
        error matches DetourError::ConfigError(s) ==> error.message() == "config error: "@ + s@,
        error matches DetourError::Other(s) ==> error.message() == s@,
{
    if let DetourError::Other(s) = error {
        assert(error.message() =~= s@);
    }
}

} // verus!
