//! The token that a command presents to the broker.
use vstd::prelude::*;
use vstd::string::*;

use crate::cli::gcloud::{lossy, trimmed, CliError, CommandOutput};
use crate::model::session::AuthMode;
use crate::model::text_map::{text_at, TextMap};
use crate::text::{concat, texts, trim};

verus! {

/// Where the token comes from.
pub enum TokenSource {
    /// No token is needed.
    NotNeeded,
    /// This is the token.
    Token(String),
    /// `gcloud` is to be asked for an identity token for this audience.
    Gcloud { audience: String },
}

/// The audience of an identity token: what the environment says, or else the broker.
pub open spec fn audience(env: Map<Seq<char>, Seq<char>>, broker_url: Seq<char>) -> Seq<char> {
    match text_at(env, "DETOUR_GCP_OIDC_AUDIENCE"@) {
        Some(text) => text,
        None => broker_url,
    }
}

/// The audience of an identity token.
pub fn identity_audience(env: &TextMap, broker_url: &str) -> (r: String)
    ensures
        r@ == audience(env@, broker_url@),
{
    match env.get("DETOUR_GCP_OIDC_AUDIENCE") {
        Some(text) => text,
        None => broker_url.to_string(),
    }
}

/// Find out where the token comes from.
pub fn resolve_auth_token(auth_mode: AuthMode, env: &TextMap, broker_url: &str) -> (r: Result<
    TokenSource,
    CliError,
>)
    ensures
        match auth_mode {
            AuthMode::SessionId => r matches Ok(source) && source is NotNeeded,
            AuthMode::SignedToken => match text_at(env@, "DETOUR_AUTH_TOKEN"@) {
                Some(text) => r matches Ok(TokenSource::Token(token)) && token@ == text,
                None => r matches Err(e) && e.says(
                    "signed-token mode requires DETOUR_AUTH_TOKEN to be set"@,
                    Some("environment variable not found"@),
                ),
            },
            AuthMode::GcpOidc => r matches Ok(TokenSource::Gcloud { audience: asked }) && asked@
                == audience(env@, broker_url@),
        },
{
    match auth_mode {
        AuthMode::SessionId => Ok(TokenSource::NotNeeded),
        AuthMode::SignedToken => match env.get("DETOUR_AUTH_TOKEN") {
            Some(token) => Ok(TokenSource::Token(token)),
            None => Err(
                CliError {
                    message: "signed-token mode requires DETOUR_AUTH_TOKEN to be set".to_string(),
                    cause: Some("environment variable not found".to_string()),
                },
            ),
        },
        AuthMode::GcpOidc => Ok(
            TokenSource::Gcloud { audience: identity_audience(env, broker_url) },
        ),
    }
}

/// The arguments that make `gcloud` print an identity token.
pub fn identity_token_arguments(audience: &str) -> (r: Vec<String>)
    ensures
        texts(r@) == seq!["auth"@, "print-identity-token"@, "--audiences"@, audience@],
{
    let mut out: Vec<String> = Vec::new();
    out.push("auth".to_string());
    out.push("print-identity-token".to_string());
    out.push("--audiences".to_string());
    out.push(audience.to_string());
    assert(texts(out@) =~= seq!["auth"@, "print-identity-token"@, "--audiences"@, audience@]);
    out
}

/// Take the identity token that `gcloud` printed.
pub fn get_gcp_identity_token(output: &CommandOutput) -> (r: Result<String, CliError>)
    ensures
        if !output.success {
            r matches Err(e) && e.says(
                "gcloud auth print-identity-token failed: "@ + trim(lossy(output.stderr@)),
                None,
            )
        } else if trim(lossy(output.stdout@)).len() == 0 {
            r matches Err(e) && e.says("gcloud returned an empty identity token"@, None)
        } else {
            r matches Ok(token) && token@ == trim(lossy(output.stdout@))
        },
{
    if !output.success {
        let reason = trimmed(output.stderr.as_slice());
        return Err(
            CliError::new(
                concat("gcloud auth print-identity-token failed: ", reason.as_str()),
            ),
        );
    }
    let token = trimmed(output.stdout.as_slice());
    if token.as_str().is_empty() {
        return Err(CliError::new("gcloud returned an empty identity token".to_string()));
    }
    Ok(token)
}

// ── Laws ──────────────────────────────────────────────────────────────────────

/// A token is asked for the audience that the environment names, or else for the broker.
pub proof fn audience_is_named_or_the_broker(
    env: Map<Seq<char>, Seq<char>>,
    named: Seq<char>,
    broker_url: Seq<char>,
)
    requires
        !env.contains_key("DETOUR_GCP_OIDC_AUDIENCE"@),
    ensures
        audience(env, broker_url) == broker_url,
        audience(env.insert("DETOUR_GCP_OIDC_AUDIENCE"@, named), broker_url) == named,
{
}

} // verus!
