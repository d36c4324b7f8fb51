//! The token exchange with the Spotify accounts service: the form fields
//! of each request and what becomes of each reply.

use crate::error::SynapseError;
use vstd::prelude::*;
use vstd::string::StringExecFns;

verus! {

/// The tokens that the accounts service grants.
#[derive(Debug)]
pub struct SpotifyTokenResponse {
    pub access_token: String,
    pub token_type: String,
    pub scope: String,
    pub expires_in: i32,
    pub refresh_token: Option<String>,
}

/// One field of a request form.
#[derive(Debug)]
pub struct FormField {
    pub name: String,
    pub value: String,
}

/// The fields of `form` as pairs of name and value, in order.
pub open spec fn form_text(form: Seq<FormField>) -> Seq<(Seq<char>, Seq<char>)> {
    Seq::new(form.len(), |i: int| (form[i].name@, form[i].value@))
}

/// A field with the name `name`.
fn field(name: &str, value: String) -> (made: FormField)
    ensures
        made.name@ == name@,
        made.value == value,
{
    FormField { name: String::from_str(name), value }
}

/// The form that exchanges an authorization code for tokens.
pub fn exchange_form(client_id: String, code: String, redirect_uri: String, code_verifier: String) -> (form:
    Vec<FormField>)
    ensures
        form_text(form@) == seq![
            ("client_id"@, client_id@),
            ("grant_type"@, "authorization_code"@),
            ("code"@, code@),
            ("redirect_uri"@, redirect_uri@),
            ("code_verifier"@, code_verifier@),
        ],
{
    let mut form: Vec<FormField> = Vec::new();
    form.push(field("client_id", client_id));
    form.push(field("grant_type", String::from_str("authorization_code")));
    form.push(field("code", code));
    form.push(field("redirect_uri", redirect_uri));
    form.push(field("code_verifier", code_verifier));
    assert(form_text(form@) =~= seq![
        ("client_id"@, client_id@),
        ("grant_type"@, "authorization_code"@),
        ("code"@, code@),
        ("redirect_uri"@, redirect_uri@),
        ("code_verifier"@, code_verifier@),
    ]);
    form
}

/// The form that asks for new tokens with a refresh token.
pub fn refresh_form(client_id: String, refresh_token: String) -> (form: Vec<FormField>)
    ensures
        form_text(form@) == seq![
            ("grant_type"@, "refresh_token"@),
            ("refresh_token"@, refresh_token@),
            ("client_id"@, client_id@),
        ],
{
    let mut form: Vec<FormField> = Vec::new();
    form.push(field("grant_type", String::from_str("refresh_token")));
    form.push(field("refresh_token", refresh_token));
    form.push(field("client_id", client_id));
    assert(form_text(form@) =~= seq![
        ("grant_type"@, "refresh_token"@),
        ("refresh_token"@, refresh_token@),
        ("client_id"@, client_id@),
    ]);
    form
}

/// What came back from the accounts service.
#[derive(Debug)]
pub enum TokenReply {
    /// The request could not be sent; the text says why.
    SendFailed(String),
    /// The service answered with a failure status and this body.
    Refused(String),
    /// The answer could not be read as tokens; the text says why.
    Unreadable(String),
    /// The service granted tokens.
    Granted(SpotifyTokenResponse),
}

/// The tokens that `reply` grants, or the error that it amounts to.
pub fn token_of(reply: TokenReply) -> (result: Result<SpotifyTokenResponse, SynapseError>)
    ensures
        match reply {
            TokenReply::SendFailed(reason) => result matches Err(SynapseError::Other(detail))
                && detail@ == "Failed to send request: "@ + reason@,
            TokenReply::Refused(body) => result matches Err(SynapseError::Other(detail)) && detail@
                == "Spotify API error: "@ + body@,
            TokenReply::Unreadable(reason) => result matches Err(SynapseError::Other(detail))
                && detail@ == "Failed to parse response: "@ + reason@,
            TokenReply::Granted(tokens) => result == Ok::<SpotifyTokenResponse, SynapseError>(tokens),
        },
{
    match reply {
        TokenReply::SendFailed(reason) => Err(
            SynapseError::Other(String::from_str("Failed to send request: ").concat(reason.as_str())),
        ),
        TokenReply::Refused(body) => Err(
            SynapseError::Other(String::from_str("Spotify API error: ").concat(body.as_str())),
        ),
        TokenReply::Unreadable(reason) => Err(
            SynapseError::Other(
                String::from_str("Failed to parse response: ").concat(reason.as_str()),
            ),
        ),
        TokenReply::Granted(tokens) => Ok(tokens),
    }
}

} // verus!
