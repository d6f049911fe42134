//! Who may register a session, and for which services.
use jsonwebtoken::errors::ErrorKind;
use jsonwebtoken::{decode, decode_header, Algorithm, DecodingKey, Validation};
use serde::de::IgnoredAny;
use serde_json::Value;
use vstd::prelude::*;
use vstd::slice::slice_subrange;
use vstd::string::*;

use crate::json::{from_value, json_parse, json_tree, parse, Json, JsonView};
use crate::model::error::DetourError;
use crate::model::session::{AuthMode, SessionId};
use crate::text::{
    begins_with, chars_begin_with, chars_finish_with, chars_of, concat, finishes_with, opt_str,
    opt_text, same_text, string_of, texts, trim, trim_chars, trim_start_char, trim_start_char_of,
    trimming_takes_the_blanks, trimming_takes_the_character, whitespace,
};

verus! {

// ── The allow-list ────────────────────────────────────────────────────────────

/// What a check came to: nothing to object, or the reason of the refusal.
pub open spec fn verdict(r: Result<(), DetourError>) -> Result<(), Seq<char>> {
    match r {
        Ok(()) => Ok(()),
        Err(e) => Err(e.detail()),
    }
}

/// The first of `targets` that is not on the list.
pub open spec fn first_unlisted(targets: Seq<Seq<char>>, allowed: Seq<Seq<char>>) -> Option<
    Seq<char>,
>
    decreases targets.len(),
{
    if targets.len() == 0 {
        None
    } else if !allowed.contains(targets[0]) {
        Some(targets[0])
    } else {
        first_unlisted(targets.skip(1), allowed)
    }
}

/// Whether every target is on the list; without a list there is nothing to object.
pub open spec fn authorization(
    targets: Seq<Seq<char>>,
    allowed: Option<Seq<Seq<char>>>,
) -> Result<(), Seq<char>> {
    match allowed {
        None => Ok(()),
        Some(list) => match first_unlisted(targets, list) {
            None => Ok(()),
            Some(service) => Err("not authorized to intercept service '"@ + service + "'"@),
        },
    }
}

/// The texts of an optional list.
pub open spec fn opt_list(list: Option<Seq<String>>) -> Option<Seq<Seq<char>>> {
    match list {
        Some(list) => Some(texts(list)),
        None => None,
    }
}

/// The strings behind an optional slice.
pub open spec fn opt_slice(list: Option<&[String]>) -> Option<Seq<String>> {
    match list {
        Some(list) => Some(list@),
        None => None,
    }
}

fn contains_text(list: &[String], wanted: &str) -> (r: bool)
    ensures
        r == texts(list@).contains(wanted@),
{
    let mut i: usize = 0;
    while i < list.len()
        invariant
            i <= list@.len(),
            forall|k: int| 0 <= k < i ==> texts(list@)[k] != wanted@,
        decreases list@.len() - i,
    {
        assert(texts(list@)[i as int] == list@[i as int]@);
        if same_text(list[i].as_str(), wanted) {
            return true;
        }
        i = i + 1;
    }
    false
}

/// Refuse unless every target service is on the list. `None` means that nothing is restricted.
pub fn authorize_services(target_services: &[String], allowed: Option<&[String]>) -> (r: Result<
    (),
    DetourError,
>)
    ensures
        verdict(r) == authorization(texts(target_services@), opt_list(opt_slice(allowed))),
        r matches Err(e) ==> e is AuthError,
{
    let list: &[String] = match allowed {
        None => {
            return Ok(());
        },
        Some(list) => list,
    };
    let ghost targets = texts(target_services@);
    let mut i: usize = 0;
    assert(targets.skip(0) =~= targets);
    while i < target_services.len()
        invariant
            i <= target_services@.len(),
            targets == texts(target_services@),
            allowed == Some(list),
            first_unlisted(targets, texts(list@)) == first_unlisted(
                targets.skip(i as int),
                texts(list@),
            ),
        decreases target_services@.len() - i,
    {
        assert(targets.skip(i as int)[0] == target_services@[i as int]@);
        if !contains_text(list, target_services[i].as_str()) {
            let message = concat(
                concat(
                    "not authorized to intercept service '",
                    target_services[i].as_str(),
                ).as_str(),
                "'",
            );
            return Err(DetourError::AuthError(message));
        }
        assert(targets.skip(i as int).skip(1) =~= targets.skip(i + 1));
        i = i + 1;
    }
    Ok(())
}

// ── Records ───────────────────────────────────────────────────────────────────

/// A JSON value can be read as a record of `count` fields: an object, or a list of as many items.
pub open spec fn is_record(json: JsonView, count: nat) -> bool {
    match json {
        JsonView::Object(_) => true,
        JsonView::List(items) => items.len() == count,
        _ => false,
    }
}

/// The field of a record under a name: the member of an object, or item `i` of a list.
pub open spec fn field(json: JsonView, name: Seq<char>, i: int) -> Option<JsonView> {
    match json {
        JsonView::List(items) => if 0 <= i < items.len() {
            Some(items[i])
        } else {
            None
        },
        _ => json.member(name),
    }
}

/// A field that must be a text.
pub open spec fn text_field(json: JsonView, name: Seq<char>, i: int) -> Option<Seq<char>> {
    match field(json, name, i) {
        Some(JsonView::Text(s)) => Some(s),
        _ => None,
    }
}

/// A field that may be left out or null, and otherwise must be a text.
pub open spec fn optional_text(json: JsonView, name: Seq<char>, i: int) -> Option<
    Option<Seq<char>>,
> {
    match field(json, name, i) {
        None => Some(None),
        Some(JsonView::Null) => Some(None),
        Some(JsonView::Text(s)) => Some(Some(s)),
        Some(_) => None,
    }
}

/// Whether a JSON value can be read as a record of `count` fields.
fn reads_as_record(json: &Json, count: usize) -> (r: bool)
    ensures
        r == is_record(json@, count as nat),
{
    match json.as_array() {
        Some(items) => items.len() == count,
        None => match json {
            Json::Object(_) => true,
            _ => false,
        },
    }
}

/// Read the field of a record.
fn read_field<'a>(json: &'a Json, name: &str, i: usize) -> (r: Option<&'a Json>)
    ensures
        match r {
            Some(v) => field(json@, name@, i as int) == Some(v@),
            None => field(json@, name@, i as int) is None,
        },
{
    match json.as_array() {
        Some(items) => if i < items.len() {
            Some(&items[i])
        } else {
            None
        },
        None => json.get(name),
    }
}

fn read_text<'a>(json: &'a Json, name: &str, i: usize) -> (r: Option<&'a str>)
    ensures
        match r {
            Some(s) => text_field(json@, name@, i as int) == Some(s@),
            None => text_field(json@, name@, i as int) is None,
        },
{
    match read_field(json, name, i) {
        Some(v) => v.as_str(),
        None => None,
    }
}

fn read_optional_text(json: &Json, name: &str, i: usize) -> (r: Option<Option<String>>)
    ensures
        match r {
            Some(text) => optional_text(json@, name@, i as int) == Some(opt_text(text)),
            None => optional_text(json@, name@, i as int) is None,
        },
{
    match read_field(json, name, i) {
        None => Some(None),
        Some(v) => match v {
            Json::Null => Some(None),
            Json::Text(s) => Some(Some(s.clone())),
            _ => None,
        },
    }
}

// ── Signed tokens ─────────────────────────────────────────────────────────────

/// Why the signature of a token does not hold, or its claims are no JSON.
pub enum TokenFault {
    /// The header or the claims are no JSON that can be used.
    Json(String),
    /// Anything else.
    Other(String),
}

/// What a check of a signature came to: nothing to object, or whether the fault is one of JSON and
/// what it is.
pub open spec fn fault(r: Result<(), TokenFault>) -> Option<(bool, Seq<char>)> {
    match r {
        Ok(()) => None,
        Err(TokenFault::Json(message)) => Some((true, message@)),
        Err(TokenFault::Other(message)) => Some((false, message@)),
    }
}

/// What is wrong with a token before its claims are judged. `objection` is what the reader of the
/// claims objects to in their fields. A signature that does not hold comes first; of JSON that
/// cannot be used the reader says more.
pub open spec fn first_fault(
    fault: Option<(bool, Seq<char>)>,
    objection: Option<Seq<char>>,
) -> Option<Seq<char>> {
    match fault {
        Some((json, message)) => if json && objection is Some {
            objection
        } else {
            Some(message)
        },
        None => objection,
    }
}

fn pick_fault(checked: Result<(), TokenFault>, objection: Option<String>) -> (r: Option<String>)
    ensures
        opt_text(r) == first_fault(fault(checked), opt_text(objection)),
{
    match checked {
        Ok(()) => objection,
        Err(TokenFault::Json(message)) => match objection {
            Some(objection) => Some(objection),
            None => Some(message),
        },
        Err(TokenFault::Other(message)) => Some(message),
    }
}

/// What is wrong with the signature of a token that should be signed with a secret, or with its
/// JSON.
pub uninterp spec fn hs256_fault(token: Seq<char>, secret: Seq<char>) -> Option<
    (bool, Seq<char>),
>;

/// `jsonwebtoken::decode` with HS256 and no claim to judge checks the signature of a token and that
/// its header and claims are JSON. What it finds is determined by token and secret.
#[verifier::external_body]
fn check_hs256(token: &str, secret: &str) -> (r: Result<(), TokenFault>)
    ensures
        fault(r) == hs256_fault(token@, secret@),
{
    let mut validation = Validation::new(Algorithm::HS256);
    validation.validate_exp = false;
    validation.validate_aud = false;
    validation.required_spec_claims.clear();
    let key = DecodingKey::from_secret(secret.as_bytes());
    match decode::<IgnoredAny>(token, &key, &validation) {
        Ok(_) => Ok(()),
        Err(e) => match e.kind() {
            ErrorKind::Json(_) => Err(TokenFault::Json(e.to_string())),
            _ => Err(TokenFault::Other(e.to_string())),
        },
    }
}

/// What there is to a token.
pub struct TokenView {
    /// Its claims, or why it is refused, as far as the clock has no say in it.
    pub claims: Result<JsonView, Seq<char>>,
    /// There is a time at which it is refused for its time.
    pub lapses: bool,
}

/// What there is to a token that was signed with a secret.
pub uninterp spec fn hs256_claims(token: Seq<char>, secret: Seq<char>) -> TokenView;

/// `jsonwebtoken::decode` with HS256 checks the signature of a token and its claims, among them
/// that there is an expiry. What it finds is determined by token and secret, except that a token
/// whose time is up is refused for that.
#[verifier::external_body]
fn decode_hs256(token: &str, secret: &str) -> (r: Result<Value, String>)
    ensures
        match r {
            Ok(value) => hs256_claims(token@, secret@).claims == Ok::<JsonView, Seq<char>>(
                json_tree(value),
            ),
            Err(message) => hs256_claims(token@, secret@).claims == Err::<JsonView, Seq<char>>(
                message@,
            ) || (message@ == "ExpiredSignature"@ && hs256_claims(token@, secret@).lapses),
        },
{
    let key = DecodingKey::from_secret(secret.as_bytes());
    let validation = Validation::new(Algorithm::HS256);
    decode::<Value>(token, &key, &validation).map(|t| t.claims).map_err(|e| e.to_string())
}

/// All of `items` are texts.
pub open spec fn all_texts(items: Seq<JsonView>) -> bool {
    forall|i: int| 0 <= i < items.len() ==> (#[trigger] items[i]) is Text
}

/// The texts of `items`.
pub open spec fn texts_in(items: Seq<JsonView>) -> Seq<Seq<char>> {
    items.map_values(|v: JsonView| v->Text_0)
}

/// An expiry is an unsigned integer.
pub open spec fn has_expiry(claims: JsonView) -> bool {
    field(claims, "exp"@, 0) matches Some(JsonView::Number(n)) && n is Some
}

/// The services that the claims of a token allow: a list of texts, or nothing said. Claims without
/// an expiry, or with anything else in the place of the list, are malformed.
pub open spec fn claimed_services(claims: JsonView) -> Option<Option<Seq<Seq<char>>>> {
    if !is_record(claims, 2) || !has_expiry(claims) {
        None
    } else {
        match field(claims, "allowed_services"@, 1) {
            None => Some(None),
            Some(JsonView::Null) => Some(None),
            Some(JsonView::List(items)) => if all_texts(items) {
                Some(Some(texts_in(items)))
            } else {
                None
            },
            Some(_) => None,
        }
    }
}

/// What is said of claims that are malformed though their reader did not object.
pub open spec fn malformed() -> Seq<char> {
    "JSON error: malformed claims"@
}

/// Whether claims allow the targets. The list in the claims decides; without one, that of the
/// broker.
pub open spec fn claims_authorization(
    claims: JsonView,
    targets: Seq<Seq<char>>,
    broker_allowed: Option<Seq<Seq<char>>>,
) -> Result<(), Seq<char>> {
    match claimed_services(claims) {
        None => Err(malformed()),
        Some(None) => authorization(targets, broker_allowed),
        Some(list) => authorization(targets, list),
    }
}

fn expires(claims: &Json) -> (r: bool)
    ensures
        r == has_expiry(claims@),
{
    match read_field(claims, "exp", 0) {
        Some(Json::Number(Some(_))) => true,
        _ => false,
    }
}

/// Collect the texts of a list; `None` if there is anything else in it.
fn text_list(items: &Vec<Json>) -> (r: Option<Vec<String>>)
    ensures
        match r {
            Some(list) => (forall|i: int| 0 <= i < items@.len() ==> (#[trigger] items@[i])@ is Text)
                && texts(list@) == items@.map_values(|v: Json| v@->Text_0),
            None => exists|i: int| 0 <= i < items@.len() && !((#[trigger] items@[i])@ is Text),
        },
{
    let mut out: Vec<String> = Vec::new();
    let mut i: usize = 0;
    while i < items.len()
        invariant
            i <= items@.len(),
            forall|k: int| 0 <= k < i ==> (#[trigger] items@[k])@ is Text,
            texts(out@) == items@.map_values(|v: Json| v@->Text_0).take(i as int),
        decreases items@.len() - i,
    {
        match items[i].as_str() {
            Some(s) => {
                let ghost before = out@;
                out.push(s.to_string());
                assert(texts(out@) =~= texts(before).push(s@));
                assert(items@.map_values(|v: Json| v@->Text_0).take(i + 1) =~= items@.map_values(
                    |v: Json| v@->Text_0,
                ).take(i as int).push(s@));
            },
            None => {
                assert(!(items@[i as int]@ is Text));
                return None;
            },
        }
        i = i + 1;
    }
    assert(items@.map_values(|v: Json| v@->Text_0).take(i as int) =~= items@.map_values(
        |v: Json| v@->Text_0,
    ));
    Some(out)
}

/// Check the targets against the claims of a token.
pub fn authorize_claims(
    claims: &Json,
    target_services: &[String],
    broker_allowed: Option<&[String]>,
) -> (r: Result<(), DetourError>)
    ensures
        verdict(r) == claims_authorization(
            claims@,
            texts(target_services@),
            opt_list(opt_slice(broker_allowed)),
        ),
        r matches Err(e) ==> e is AuthError,
{
    if !reads_as_record(claims, 2) || !expires(claims) {
        return Err(DetourError::AuthError("JSON error: malformed claims".to_string()));
    }
    match read_field(claims, "allowed_services", 1) {
        None => authorize_services(target_services, broker_allowed),
        Some(listed) => match listed {
            Json::Null => authorize_services(target_services, broker_allowed),
            _ => match listed.as_array() {
                None => Err(DetourError::AuthError("JSON error: malformed claims".to_string())),
                Some(items) => {
                    let ghost found = listed@->List_0;
                    match text_list(items) {
                        None => {
                            proof {
                                let i = choose|i: int|
                                    0 <= i < items@.len() && !((#[trigger] items@[i])@ is Text);
                                assert(!(found[i] is Text));
                            }
                            Err(DetourError::AuthError("JSON error: malformed claims".to_string()))
                        },
                        Some(list) => {
                            proof {
                                assert forall|i: int| 0 <= i < found.len() implies (
                                #[trigger] found[i]) is Text by {
                                    assert(items@[i]@ is Text);
                                }
                                assert(texts(list@) =~= texts_in(found));
                            }
                            authorize_services(target_services, Some(list.as_slice()))
                        },
                    }
                },
            },
        },
    }
}

/// What a signed token comes to, as far as the clock has no say in it.
pub open spec fn token_authorization(
    fault: Option<Seq<char>>,
    claims: Result<JsonView, Seq<char>>,
    targets: Seq<Seq<char>>,
    broker_allowed: Option<Seq<Seq<char>>>,
) -> Result<(), Seq<char>> {
    match fault {
        Some(message) => Err(message),
        None => match claims {
            Err(message) => Err(message),
            Ok(claims) => claims_authorization(claims, targets, broker_allowed),
        },
    }
}

/// Check a token that was signed with a secret, and the targets against its claims. `objection` is
/// what the reader of the claims objects to in their fields: an expiry and an optional list of
/// services. A token that is as it should be and whose time is up is refused for that.
pub fn validate_jwt(
    token: &str,
    secret: &str,
    objection: Option<String>,
    target_services: &[String],
    broker_allowed: Option<&[String]>,
) -> (r: Result<(), DetourError>)
    ensures
        ({
            let fault = first_fault(hs256_fault(token@, secret@), opt_text(objection));
            verdict(r) == token_authorization(
                fault,
                hs256_claims(token@, secret@).claims,
                texts(target_services@),
                opt_list(opt_slice(broker_allowed)),
            ) || (fault is None && hs256_claims(token@, secret@).lapses && verdict(r) == Err::<
                (),
                Seq<char>,
            >("ExpiredSignature"@))
        }),
        r matches Err(e) ==> e is AuthError,
{
    if let Some(message) = pick_fault(check_hs256(token, secret), objection) {
        return Err(DetourError::AuthError(message));
    }
    match decode_hs256(token, secret) {
        Err(message) => Err(DetourError::AuthError(message)),
        Ok(value) => authorize_claims(&from_value(value), target_services, broker_allowed),
    }
}

// ── Google identity tokens ────────────────────────────────────────────────────

/// The token in an authorization value: what follows `Bearer ` or `bearer `, or else all of it,
/// without white space around it.
pub open spec fn bearer(token: Seq<char>) -> Seq<char> {
    if begins_with(token, "Bearer "@) || begins_with(token, "bearer "@) {
        trim(token.skip(7))
    } else {
        trim(token)
    }
}

/// Take the token out of an authorization value.
pub fn strip_bearer(token: &str) -> (r: String)
    ensures
        r@ == bearer(token@),
{
    proof {
        reveal_strlit("Bearer ");
        reveal_strlit("bearer ");
    }
    let chars = chars_of(token);
    let upper = chars_of("Bearer ");
    let lower = chars_of("bearer ");
    if chars_begin_with(chars.as_slice(), upper.as_slice()) || chars_begin_with(
        chars.as_slice(),
        lower.as_slice(),
    ) {
        string_of(trim_chars(slice_subrange(chars.as_slice(), 7, chars.len())))
    } else {
        string_of(trim_chars(chars.as_slice()))
    }
}

/// The key that the header of a token names, or why the header cannot be read.
pub uninterp spec fn token_key_id(token: Seq<char>) -> Result<Option<Seq<char>>, Seq<char>>;

/// `jsonwebtoken::decode_header` reads the header of a token without checking the token. Of the
/// header the field `kid` is given. The result is determined by the token.
#[verifier::external_body]
fn header_key_id(token: &str) -> (r: Result<Option<String>, String>)
    ensures
        match r {
            Ok(kid) => token_key_id(token@) == Ok::<Option<Seq<char>>, Seq<char>>(opt_text(kid)),
            Err(message) => token_key_id(token@) == Err::<Option<Seq<char>>, Seq<char>>(message@),
        },
{
    decode_header(token).map(|header| header.kid).map_err(|e| e.to_string())
}

/// The key that a token asks for: a token that names none cannot be checked.
pub open spec fn asked_key(header: Result<Option<Seq<char>>, Seq<char>>) -> Result<
    Seq<char>,
    Seq<char>,
> {
    match header {
        Err(message) => Err(message),
        Ok(None) => Err("identity token missing kid header"@),
        Ok(Some(kid)) => Ok(kid),
    }
}

/// Find out which key an identity token asks for.
pub fn identity_key_id(token: &str) -> (r: Result<String, DetourError>)
    ensures
        match r {
            Ok(kid) => asked_key(token_key_id(token@)) == Ok::<Seq<char>, Seq<char>>(kid@),
            Err(e) => asked_key(token_key_id(token@)) == Err::<Seq<char>, Seq<char>>(e.detail())
                && e is AuthError,
        },
{
    match header_key_id(token) {
        Err(message) => Err(DetourError::AuthError(message)),
        Ok(None) => Err(DetourError::AuthError("identity token missing kid header".to_string())),
        Ok(Some(kid)) => Ok(kid),
    }
}

/// A key of a key set.
pub struct Jwk {
    pub kid: String,
    pub n: String,
    pub e: String,
    pub kty: String,
    pub alg: Option<String>,
    pub use_field: Option<String>,
}

/// What a [`Jwk`] says.
pub struct JwkView {
    pub kid: Seq<char>,
    pub n: Seq<char>,
    pub e: Seq<char>,
    pub kty: Seq<char>,
    pub alg: Option<Seq<char>>,
    pub use_field: Option<Seq<char>>,
}

impl View for Jwk {
    type V = JwkView;

    open spec fn view(&self) -> JwkView {
        JwkView {
            kid: self.kid@,
            n: self.n@,
            e: self.e@,
            kty: self.kty@,
            alg: opt_text(self.alg),
            use_field: opt_text(self.use_field),
        }
    }
}

/// The key that a record describes.
pub open spec fn jwk_of(json: JsonView) -> Option<JwkView> {
    match (
        text_field(json, "kid"@, 0),
        text_field(json, "n"@, 1),
        text_field(json, "e"@, 2),
        text_field(json, "kty"@, 3),
        optional_text(json, "alg"@, 4),
        optional_text(json, "use"@, 5),
    ) {
        (Some(kid), Some(n), Some(e), Some(kty), Some(alg), Some(use_field)) => if is_record(
            json,
            6,
        ) {
            Some(JwkView { kid, n, e, kty, alg, use_field })
        } else {
            None
        },
        _ => None,
    }
}

/// The keys of a key set: every item of its list `keys` must be a key.
pub open spec fn jwks_of(json: JsonView) -> Option<Seq<JwkView>> {
    match field(json, "keys"@, 0) {
        Some(JsonView::List(items)) => if is_record(json, 1) && forall|i: int|
            0 <= i < items.len() ==> jwk_of(#[trigger] items[i]) is Some {
            Some(items.map_values(|v: JsonView| jwk_of(v)->Some_0))
        } else {
            None
        },
        _ => None,
    }
}

/// A key signs RS256 tokens under the name `kid`.
pub open spec fn signs(key: JwkView, kid: Seq<char>) -> bool {
    &&& key.kid == kid
    &&& key.kty == "RSA"@
    &&& key.use_field is None || key.use_field == Some("sig"@)
    &&& key.alg is None || key.alg == Some("RS256"@)
}

/// The first of the keys that signs under the name `kid`.
pub open spec fn signing_key(keys: Seq<JwkView>, kid: Seq<char>) -> Option<JwkView>
    decreases keys.len(),
{
    if keys.len() == 0 {
        None
    } else if signs(keys[0], kid) {
        Some(keys[0])
    } else {
        signing_key(keys.skip(1), kid)
    }
}

fn read_jwk(json: &Json) -> (r: Option<Jwk>)
    ensures
        match r {
            Some(key) => jwk_of(json@) == Some(key@),
            None => jwk_of(json@) is None,
        },
{
    if !reads_as_record(json, 6) {
        return None;
    }
    match (
        read_text(json, "kid", 0),
        read_text(json, "n", 1),
        read_text(json, "e", 2),
        read_text(json, "kty", 3),
        read_optional_text(json, "alg", 4),
        read_optional_text(json, "use", 5),
    ) {
        (Some(kid), Some(n), Some(e), Some(kty), Some(alg), Some(use_field)) => Some(
            Jwk {
                kid: kid.to_string(),
                n: n.to_string(),
                e: e.to_string(),
                kty: kty.to_string(),
                alg,
                use_field,
            },
        ),
        _ => None,
    }
}

/// The views of keys.
pub open spec fn keys_view(keys: Seq<Jwk>) -> Seq<JwkView> {
    keys.map_values(|k: Jwk| k@)
}

/// Read a key set.
pub fn read_jwks(json: &Json) -> (r: Option<Vec<Jwk>>)
    ensures
        match r {
            Some(keys) => jwks_of(json@) == Some(keys_view(keys@)),
            None => jwks_of(json@) is None,
        },
{
    if !reads_as_record(json, 1) {
        return None;
    }
    let items = match read_field(json, "keys", 0) {
        None => {
            return None;
        },
        Some(v) => match v.as_array() {
            None => {
                return None;
            },
            Some(items) => items,
        },
    };
    let ghost all = field(json@, "keys"@, 0)->Some_0->List_0;
    let mut keys: Vec<Jwk> = Vec::new();
    let mut i: usize = 0;
    while i < items.len()
        invariant
            i <= items@.len(),
            all.len() == items@.len(),
            is_record(json@, 1),
            field(json@, "keys"@, 0) == Some(JsonView::List(all)),
            forall|k: int| 0 <= k < items@.len() ==> (#[trigger] items@[k])@ == all[k],
            forall|k: int| 0 <= k < i ==> jwk_of(#[trigger] all[k]) is Some,
            keys@.len() == i,
            forall|k: int| 0 <= k < i ==> (#[trigger] keys@[k])@ == jwk_of(all[k])->Some_0,
        decreases items@.len() - i,
    {
        assert(items@[i as int]@ == all[i as int]);
        match read_jwk(&items[i]) {
            Some(key) => {
                keys.push(key);
            },
            None => {
                assert(jwk_of(all[i as int]) is None);
                return None;
            },
        }
        i = i + 1;
    }
    assert(keys_view(keys@) =~= all.map_values(|v: JsonView| jwk_of(v)->Some_0));
    Some(keys)
}

fn is_or_missing(text: &Option<String>, wanted: &str) -> (r: bool)
    ensures
        r == (opt_text(*text) is None || opt_text(*text) == Some(wanted@)),
{
    match text {
        None => true,
        Some(s) => same_text(s.as_str(), wanted),
    }
}

/// Find the key that signs under a name.
pub fn select_key(keys: &[Jwk], kid: &str) -> (r: Option<usize>)
    ensures
        match r {
            Some(i) => i < keys@.len() && signing_key(keys_view(keys@), kid@) == Some(keys@[i as int]@),
            None => signing_key(keys_view(keys@), kid@) is None,
        },
{
    let ghost all = keys_view(keys@);
    let mut i: usize = 0;
    assert(all.skip(0) =~= all);
    while i < keys.len()
        invariant
            i <= keys@.len(),
            all == keys_view(keys@),
            signing_key(all, kid@) == signing_key(all.skip(i as int), kid@),
        decreases keys@.len() - i,
    {
        let key = &keys[i];
        assert(all.skip(i as int)[0] == key@);
        if same_text(key.kid.as_str(), kid) && same_text(key.kty.as_str(), "RSA") && is_or_missing(
            &key.use_field,
            "sig",
        ) && is_or_missing(&key.alg, "RS256") {
            return Some(i);
        }
        assert(all.skip(i as int).skip(1) =~= all.skip(i + 1));
        i = i + 1;
    }
    None
}

/// Why a modulus and an exponent make no RSA key, if they make none.
pub uninterp spec fn rsa_key_error(n: Seq<char>, e: Seq<char>) -> Option<Seq<char>>;

/// `jsonwebtoken::DecodingKey::from_rsa_components` makes a key of a modulus and an exponent, or
/// says why it cannot. That is determined by the two.
#[verifier::external_body]
fn check_rsa_key(n: &str, e: &str) -> (r: Option<String>)
    ensures
        opt_text(r) == rsa_key_error(n@, e@),
{
    DecodingKey::from_rsa_components(n, e).err().map(|e| e.to_string())
}

/// What there is to a token that was signed with an RSA key for an audience by one of some issuers.
pub uninterp spec fn rs256_claims(
    token: Seq<char>,
    n: Seq<char>,
    e: Seq<char>,
    audience: Seq<char>,
    issuers: Seq<Seq<char>>,
) -> TokenView;

/// `jsonwebtoken::decode` with RS256 checks the signature of a token and its claims, among them
/// that there is an expiry, the audience and the issuer. What it finds is determined by the
/// arguments, except that a token whose time is up is refused for that.
#[verifier::external_body]
fn decode_rs256(token: &str, n: &str, e: &str, audience: &str, issuers: &[String]) -> (r: Result<
    Value,
    String,
>)
    ensures
        match r {
            Ok(value) => rs256_claims(token@, n@, e@, audience@, texts(issuers@)).claims == Ok::<
                JsonView,
                Seq<char>,
            >(json_tree(value)),
            Err(message) => rs256_claims(token@, n@, e@, audience@, texts(issuers@)).claims == Err::<
                JsonView,
                Seq<char>,
            >(message@) || (message@ == "ExpiredSignature"@ && rs256_claims(
                token@,
                n@,
                e@,
                audience@,
                texts(issuers@),
            ).lapses),
        },
{
    let mut validation = Validation::new(Algorithm::RS256);
    validation.set_audience(&[audience]);
    validation.set_issuer(issuers);
    DecodingKey::from_rsa_components(n, e)
        .and_then(|key| decode::<Value>(token, &key, &validation))
        .map(|t| t.claims)
        .map_err(|e| e.to_string())
}

/// What is wrong with the signature of a token that should be signed with an RSA key, or with its
/// JSON.
pub uninterp spec fn rs256_fault(token: Seq<char>, n: Seq<char>, e: Seq<char>) -> Option<
    (bool, Seq<char>),
>;

/// `jsonwebtoken::decode` with RS256 and no claim to judge checks the signature of a token and that
/// its header and claims are JSON. What it finds is determined by the arguments.
#[verifier::external_body]
fn check_rs256(token: &str, n: &str, e: &str) -> (r: Result<(), TokenFault>)
    ensures
        fault(r) == rs256_fault(token@, n@, e@),
{
    let mut validation = Validation::new(Algorithm::RS256);
    validation.validate_exp = false;
    validation.validate_aud = false;
    validation.required_spec_claims.clear();
    let checked = DecodingKey::from_rsa_components(n, e)
        .and_then(|key| decode::<IgnoredAny>(token, &key, &validation));
    match checked {
        Ok(_) => Ok(()),
        Err(e) => match e.kind() {
            ErrorKind::Json(_) => Err(TokenFault::Json(e.to_string())),
            _ => Err(TokenFault::Other(e.to_string())),
        },
    }
}

/// The issuers of Google identity tokens.
pub open spec fn google_issuers() -> Seq<Seq<char>> {
    seq!["https://accounts.google.com"@, "accounts.google.com"@]
}

/// The end that an email address of a domain has.
pub open spec fn domain_suffix(domain: Seq<char>) -> Seq<char> {
    "@"@ + trim_start_char(domain, '@')
}

/// Whether the claims of an identity token are those of a verified user of the domain, if one is
/// given.
pub open spec fn identity_verdict(claims: JsonView, domain: Option<Seq<char>>) -> Result<
    (),
    Seq<char>,
> {
    let verified = field(claims, "email_verified"@, 3);
    if !is_record(claims, 4) || !has_expiry(claims) || text_field(claims, "iss"@, 1) is None
        || optional_text(claims, "email"@, 2) is None || !(verified is None || verified->Some_0 is Null || verified->Some_0 is Bool) {
        Err("invalid Google identity token: "@ + malformed())
    } else if !google_issuers().contains(text_field(claims, "iss"@, 1)->Some_0) {
        Err("unexpected token issuer"@)
    } else {
        match optional_text(claims, "email"@, 2)->Some_0 {
            None => Err("identity token missing email claim"@),
            Some(email) => if verified != Some(JsonView::Bool(true)) {
                Err("identity token email is not verified"@)
            } else {
                match domain {
                    None => Ok(()),
                    Some(domain) => if finishes_with(email, domain_suffix(domain)) {
                        Ok(())
                    } else {
                        Err(
                            "identity token email "@ + email + " is outside allowed domain "@
                                + domain_suffix(domain),
                        )
                    },
                }
            },
        }
    }
}

fn refuse(message: &str) -> (r: Result<(), DetourError>)
    ensures
        verdict(r) == Err::<(), Seq<char>>(message@),
        r matches Err(e) && e is AuthError,
{
    Err(DetourError::AuthError(message.to_string()))
}

/// Check the claims of an identity token.
pub fn check_identity(claims: &Json, allowed_email_domain: Option<&str>) -> (r: Result<
    (),
    DetourError,
>)
    ensures
        verdict(r) == identity_verdict(claims@, opt_str(allowed_email_domain)),
        r matches Err(e) ==> e is AuthError,
{
    let verified: Option<bool> = match read_field(claims, "email_verified", 3) {
        None => Some(false),
        Some(v) => match v {
            Json::Null => Some(false),
            Json::Bool(b) => Some(*b),
            _ => None,
        },
    };
    let (verified, email, iss) = match (
        verified,
        read_optional_text(claims, "email", 2),
        read_text(claims, "iss", 1),
    ) {
        (Some(verified), Some(email), Some(iss)) if reads_as_record(claims, 4) && expires(
            claims,
        ) => (verified, email, iss),
        _ => {
            let message = concat(
                "invalid Google identity token: ",
                "JSON error: malformed claims",
            );
            return refuse(message.as_str());
        },
    };
    assert(google_issuers()[0] == "https://accounts.google.com"@);
    assert(google_issuers()[1] == "accounts.google.com"@);
    if !same_text(iss, "https://accounts.google.com") && !same_text(iss, "accounts.google.com") {
        return refuse("unexpected token issuer");
    }
    let email = match email {
        None => {
            return refuse("identity token missing email claim");
        },
        Some(email) => email,
    };
    if !verified {
        return refuse("identity token email is not verified");
    }
    match allowed_email_domain {
        None => Ok(()),
        Some(domain) => {
            let expected = concat(
                "@",
                string_of(trim_start_char_of(chars_of(domain).as_slice(), '@')).as_str(),
            );
            if chars_finish_with(
                chars_of(email.as_str()).as_slice(),
                chars_of(expected.as_str()).as_slice(),
            ) {
                Ok(())
            } else {
                let message = concat(
                    concat(
                        concat("identity token email ", email.as_str()).as_str(),
                        " is outside allowed domain ",
                    ).as_str(),
                    expected.as_str(),
                );
                refuse(message.as_str())
            }
        },
    }
}

/// What came of asking for the keys of Google.
pub enum CertsReply {
    /// The request could not be made.
    NotAsked(String),
    /// There was no answer, or the answer was a refusal.
    NotFetched(String),
    /// The answer broke off, or its reader objects to its fields.
    NotRead(String),
    /// The answer.
    Body(Vec<u8>),
}

/// The keys in a reply, or why there are none.
pub open spec fn certs_of(reply: CertsReply) -> Result<Seq<JwkView>, Seq<char>> {
    match reply {
        CertsReply::NotAsked(message) => Err(message@),
        CertsReply::NotFetched(message) => Err("failed to fetch Google certs: "@ + message@),
        CertsReply::NotRead(message) => Err("failed to parse Google certs: "@ + message@),
        CertsReply::Body(bytes) => match json_parse(bytes@) {
            Ok(json) => match jwks_of(json) {
                Some(keys) => Ok(keys),
                None => Err("failed to parse Google certs: error decoding response body"@),
            },
            Err(_) => Err("failed to parse Google certs: error decoding response body"@),
        },
    }
}

/// What an identity token comes to, given the keys and what the reader of its claims objects to,
/// as far as the clock has no say in it.
pub open spec fn google_verdict(
    token: Seq<char>,
    kid: Seq<char>,
    certs: Result<Seq<JwkView>, Seq<char>>,
    objection: Option<Seq<char>>,
    audience: Seq<char>,
    domain: Option<Seq<char>>,
) -> Result<(), Seq<char>> {
    match certs {
        Err(message) => Err(message),
        Ok(keys) => match signing_key(keys, kid) {
            None => Err("matching Google signing key not found"@),
            Some(key) => match rsa_key_error(key.n, key.e) {
                Some(message) => Err(message),
                None => match first_fault(rs256_fault(token, key.n, key.e), objection) {
                    Some(message) => Err("invalid Google identity token: "@ + message),
                    None => match rs256_claims(
                        token,
                        key.n,
                        key.e,
                        audience,
                        google_issuers(),
                    ).claims {
                        Err(message) => Err("invalid Google identity token: "@ + message),
                        Ok(claims) => identity_verdict(claims, domain),
                    },
                },
            },
        },
    }
}

/// A token is signed with one of the keys and its claims are as they should be, so that its time
/// comes into it, and there is a time at which it is refused for that.
pub open spec fn timed(
    token: Seq<char>,
    kid: Seq<char>,
    certs: Result<Seq<JwkView>, Seq<char>>,
    objection: Option<Seq<char>>,
    audience: Seq<char>,
) -> bool {
    match certs {
        Err(_) => false,
        Ok(keys) => match signing_key(keys, kid) {
            None => false,
            Some(key) => rsa_key_error(key.n, key.e) is None && first_fault(
                rs256_fault(token, key.n, key.e),
                objection,
            ) is None && rs256_claims(token, key.n, key.e, audience, google_issuers()).lapses,
        },
    }
}

/// What is said of an identity token whose time is up.
pub open spec fn identity_expired() -> Seq<char> {
    "invalid Google identity token: "@ + "ExpiredSignature"@
}

fn read_certs(reply: CertsReply) -> (r: Result<Vec<Jwk>, DetourError>)
    ensures
        match r {
            Ok(keys) => certs_of(reply) == Ok::<Seq<JwkView>, Seq<char>>(keys_view(keys@)),
            Err(e) => certs_of(reply) == Err::<Seq<JwkView>, Seq<char>>(e.detail())
                && e is AuthError,
        },
{
    match reply {
        CertsReply::NotAsked(message) => Err(DetourError::AuthError(message)),
        CertsReply::NotFetched(message) => Err(
            DetourError::AuthError(concat("failed to fetch Google certs: ", message.as_str())),
        ),
        CertsReply::NotRead(message) => Err(
            DetourError::AuthError(concat("failed to parse Google certs: ", message.as_str())),
        ),
        CertsReply::Body(bytes) => {
            if let Ok(json) = parse(bytes.as_slice()) {
                if let Some(keys) = read_jwks(&json) {
                    return Ok(keys);
                }
            }
            Err(
                DetourError::AuthError(
                    "failed to parse Google certs: error decoding response body".to_string(),
                ),
            )
        },
    }
}

/// Check an identity token that asks for the key `kid` against the keys of Google. `objection` is
/// what the reader of the claims objects to in their fields: an expiry, an issuer, and optionally
/// an address and whether it is verified. A token that is as it should be and whose time is up is
/// refused for that.
pub fn validate_google_identity_token(
    token: &str,
    kid: &str,
    certs: CertsReply,
    objection: Option<String>,
    audience: &str,
    allowed_email_domain: Option<&str>,
) -> (r: Result<(), DetourError>)
    ensures
        verdict(r) == google_verdict(
            token@,
            kid@,
            certs_of(certs),
            opt_text(objection),
            audience@,
            opt_str(allowed_email_domain),
        ) || (timed(token@, kid@, certs_of(certs), opt_text(objection), audience@) && verdict(r)
            == Err::<(), Seq<char>>(identity_expired())),
        r matches Err(e) ==> e is AuthError,
{
    let keys = match read_certs(certs) {
        Ok(keys) => keys,
        Err(e) => {
            return Err(e);
        },
    };
    let key = match select_key(keys.as_slice(), kid) {
        Some(i) => &keys[i],
        None => {
            return refuse("matching Google signing key not found");
        },
    };
    if let Some(message) = check_rsa_key(key.n.as_str(), key.e.as_str()) {
        return refuse(message.as_str());
    }
    let checked = check_rs256(token, key.n.as_str(), key.e.as_str());
    if let Some(message) = pick_fault(checked, objection) {
        let message = concat("invalid Google identity token: ", message.as_str());
        return refuse(message.as_str());
    }
    let mut issuers: Vec<String> = Vec::new();
    issuers.push("https://accounts.google.com".to_string());
    issuers.push("accounts.google.com".to_string());
    assert(texts(issuers@) =~= google_issuers());
    match decode_rs256(token, key.n.as_str(), key.e.as_str(), audience, issuers.as_slice()) {
        Err(message) => {
            let message = concat("invalid Google identity token: ", message.as_str());
            refuse(message.as_str())
        },
        Ok(value) => check_identity(&from_value(value), allowed_email_domain),
    }
}

// ── The service ───────────────────────────────────────────────────────────────

/// Decides whom a broker trusts.
pub struct AuthService {
    mode: AuthMode,
    secret: Option<String>,
    gcp_oidc_audience: Option<String>,
    allowed_email_domain: Option<String>,
    allowed_services: Option<Vec<String>>,
}

/// The settings of an [`AuthService`].
pub struct AuthView {
    pub mode: AuthMode,
    pub secret: Option<Seq<char>>,
    pub gcp_oidc_audience: Option<Seq<char>>,
    pub allowed_email_domain: Option<Seq<char>>,
    pub allowed_services: Option<Seq<Seq<char>>>,
}

impl View for AuthService {
    type V = AuthView;

    closed spec fn view(&self) -> AuthView {
        AuthView {
            mode: self.mode,
            secret: opt_text(self.secret),
            gcp_oidc_audience: opt_text(self.gcp_oidc_audience),
            allowed_email_domain: opt_text(self.allowed_email_domain),
            allowed_services: match self.allowed_services {
                Some(list) => Some(texts(list@)),
                None => None,
            },
        }
    }
}

/// How far the check of a credential got.
pub enum AuthStep {
    /// It is decided.
    Done(Result<(), DetourError>),
    /// The claims of a signed token are to be read.
    ReadClaims { token: String },
    /// The keys of Google are needed to check an identity token, and its claims are to be read.
    FetchCerts { token: String, kid: String },
}

impl AuthService {
    /// A service with these settings.
    pub fn new(
        mode: AuthMode,
        secret: Option<String>,
        gcp_oidc_audience: Option<String>,
        allowed_email_domain: Option<String>,
        allowed_services: Option<Vec<String>>,
    ) -> (r: Self)
        ensures
            r@ == (AuthView {
                mode,
                secret: opt_text(secret),
                gcp_oidc_audience: opt_text(gcp_oidc_audience),
                allowed_email_domain: opt_text(allowed_email_domain),
                allowed_services: match allowed_services {
                    Some(list) => Some(texts(list@)),
                    None => None,
                },
            }),
    {
        AuthService {
            mode,
            secret,
            gcp_oidc_audience,
            allowed_email_domain,
            allowed_services,
        }
    }

    /// The mode of the service.
    pub fn mode(&self) -> (r: &AuthMode)
        ensures
            *r == self@.mode,
    {
        &self.mode
    }

    fn listed(&self) -> (r: Option<&[String]>)
        ensures
            opt_list(opt_slice(r)) == self@.allowed_services,
    {
        match &self.allowed_services {
            Some(list) => Some(list.as_slice()),
            None => None,
        }
    }

    /// Check the credential that an agent presents for a session that is to intercept the target
    /// services. With `session-id` the session itself is the credential, and only the services are
    /// checked.
    pub fn validate(
        &self,
        _session_id: &SessionId,
        target_services: &[String],
        token: Option<&str>,
    ) -> (r: AuthStep)
        ensures
            match self@.mode {
                AuthMode::SessionId => r matches AuthStep::Done(done) && verdict(done)
                    == authorization(texts(target_services@), self@.allowed_services),
                AuthMode::SignedToken => match (self@.secret, token) {
                    (None, _) => r matches AuthStep::Done(done) && verdict(done) == Err::<
                        (),
                        Seq<char>,
                    >("JWT secret not configured"@),
                    (_, None) => r matches AuthStep::Done(done) && verdict(done) == Err::<
                        (),
                        Seq<char>,
                    >("signed-token mode requires JWT"@),
                    (Some(_), Some(token)) => r matches AuthStep::ReadClaims { token: kept }
                        && kept@ == token@,
                },
                AuthMode::GcpOidc => match (self@.gcp_oidc_audience, token) {
                    (None, _) => r matches AuthStep::Done(done) && verdict(done) == Err::<
                        (),
                        Seq<char>,
                    >("gcp-oidc mode requires DETOUR_GCP_OIDC_AUDIENCE to be configured"@),
                    (_, None) => r matches AuthStep::Done(done) && verdict(done) == Err::<
                        (),
                        Seq<char>,
                    >("gcp-oidc mode requires bearer token"@),
                    (Some(_), Some(token)) => match asked_key(token_key_id(bearer(token@))) {
                        Err(message) => r matches AuthStep::Done(done) && verdict(done) == Err::<
                            (),
                            Seq<char>,
                        >(message),
                        Ok(asked) => r matches AuthStep::FetchCerts { token: kept, kid } && kept@
                            == bearer(token@) && kid@ == asked,
                    },
                },
            },
            r matches AuthStep::Done(Err(e)) ==> e is AuthError,
    {
        match self.mode {
            AuthMode::SessionId => AuthStep::Done(
                authorize_services(target_services, self.listed()),
            ),
            AuthMode::SignedToken => match (&self.secret, token) {
                (None, _) => AuthStep::Done(refuse("JWT secret not configured")),
                (_, None) => AuthStep::Done(refuse("signed-token mode requires JWT")),
                (Some(_), Some(token)) => AuthStep::ReadClaims { token: token.to_string() },
            },
            AuthMode::GcpOidc => match (&self.gcp_oidc_audience, token) {
                (None, _) => AuthStep::Done(
                    refuse("gcp-oidc mode requires DETOUR_GCP_OIDC_AUDIENCE to be configured"),
                ),
                (_, None) => AuthStep::Done(refuse("gcp-oidc mode requires bearer token")),
                (Some(_), Some(token)) => {
                    let token = strip_bearer(token);
                    match identity_key_id(token.as_str()) {
                        Err(e) => AuthStep::Done(Err(e)),
                        Ok(kid) => AuthStep::FetchCerts { token, kid },
                    }
                },
            },
        }
    }

    /// Go on with the check of a signed token once its claims have been read; `objection` is what
    /// their reader objects to.
    pub fn validate_with_claims(
        &self,
        token: &str,
        objection: Option<String>,
        target_services: &[String],
    ) -> (r: Result<(), DetourError>)
        ensures
            match self@.secret {
                None => verdict(r) == Err::<(), Seq<char>>("JWT secret not configured"@),
                Some(secret) => {
                    let fault = first_fault(hs256_fault(token@, secret), opt_text(objection));
                    verdict(r) == token_authorization(
                        fault,
                        hs256_claims(token@, secret).claims,
                        texts(target_services@),
                        self@.allowed_services,
                    ) || (fault is None && hs256_claims(token@, secret).lapses && verdict(r) == Err::<
                        (),
                        Seq<char>,
                    >("ExpiredSignature"@))
                },
            },
            r matches Err(e) ==> e is AuthError,
    {
        match &self.secret {
            None => refuse("JWT secret not configured"),
            Some(secret) => validate_jwt(
                token,
                secret.as_str(),
                objection,
                target_services,
                self.listed(),
            ),
        }
    }

    /// Go on with the check of an identity token once the keys of Google have been asked for and
    /// its claims have been read; `objection` is what their reader objects to. The identity must be
    /// a valid one and every target service must be allowed.
    pub fn validate_with_certs(
        &self,
        token: &str,
        kid: &str,
        certs: CertsReply,
        objection: Option<String>,
        target_services: &[String],
    ) -> (r: Result<(), DetourError>)
        ensures
            match self@.gcp_oidc_audience {
                None => verdict(r) == Err::<(), Seq<char>>(
                    "gcp-oidc mode requires DETOUR_GCP_OIDC_AUDIENCE to be configured"@,
                ),
                Some(audience) => verdict(r) == match google_verdict(
                    token@,
                    kid@,
                    certs_of(certs),
                    opt_text(objection),
                    audience,
                    self@.allowed_email_domain,
                ) {
                    Err(message) => Err::<(), Seq<char>>(message),
                    Ok(()) => authorization(texts(target_services@), self@.allowed_services),
                } || (timed(token@, kid@, certs_of(certs), opt_text(objection), audience) && verdict(
                    r,
                ) == Err::<(), Seq<char>>(identity_expired())),
            },
            r matches Err(e) ==> e is AuthError,
    {
        let audience = match &self.gcp_oidc_audience {
            None => {
                return refuse("gcp-oidc mode requires DETOUR_GCP_OIDC_AUDIENCE to be configured");
            },
            Some(audience) => audience,
        };
        let domain: Option<&str> = match &self.allowed_email_domain {
            Some(domain) => Some(domain.as_str()),
            None => None,
        };
        match validate_google_identity_token(
            token,
            kid,
            certs,
            objection,
            audience.as_str(),
            domain,
        ) {
            Err(e) => Err(e),
            Ok(()) => authorize_services(target_services, self.listed()),
        }
    }
}

// ── Laws ──────────────────────────────────────────────────────────────────────

/// A registration is authorized exactly if every target is on the list.
pub proof fn allow_list_is_enforced(targets: Seq<Seq<char>>, allowed: Seq<Seq<char>>)
    ensures
        authorization(targets, Some(allowed)) is Ok <==> forall|i: int|
            0 <= i < targets.len() ==> allowed.contains(#[trigger] targets[i]),
    decreases targets.len(),
{
    if targets.len() > 0 {
        let rest = targets.skip(1);
        allow_list_is_enforced(rest, allowed);
        if forall|i: int| 0 <= i < targets.len() ==> allowed.contains(#[trigger] targets[i]) {
            assert forall|i: int| 0 <= i < rest.len() implies allowed.contains(
                #[trigger] rest[i],
            ) by {
                assert(rest[i] == targets[i + 1]);
            }
            assert(allowed.contains(targets[0]));
        }
        if authorization(targets, Some(allowed)) is Ok {
            assert forall|i: int| 0 <= i < targets.len() implies allowed.contains(
                #[trigger] targets[i],
            ) by {
                if i > 0 {
                    assert(targets[i] == rest[i - 1]);
                }
            }
        }
    }
}

/// The list in the claims of a token takes the place of the list of the broker.
pub proof fn claimed_list_is_authoritative(
    claims: JsonView,
    targets: Seq<Seq<char>>,
    broker_allowed: Option<Seq<Seq<char>>>,
    other: Option<Seq<Seq<char>>>,
)
    requires
        claimed_services(claims) matches Some(list) && list is Some,
    ensures
        claims_authorization(claims, targets, broker_allowed) == claims_authorization(
            claims,
            targets,
            other,
        ),
        claims_authorization(claims, targets, broker_allowed) == authorization(
            targets,
            claimed_services(claims)->Some_0,
        ),
{
}

/// A token whose signature does not hold, or whose claims their reader objects to, is refused
/// whatever it claims; and the signature is what decides first.
pub proof fn faulty_token_is_refused(
    found: Option<(bool, Seq<char>)>,
    objection: Option<Seq<char>>,
    claims: Result<JsonView, Seq<char>>,
    targets: Seq<Seq<char>>,
    broker_allowed: Option<Seq<Seq<char>>>,
)
    ensures
        found is Some || objection is Some ==> token_authorization(
            first_fault(found, objection),
            claims,
            targets,
            broker_allowed,
        ) is Err,
        found matches Some((json, message)) ==> (!json ==> first_fault(found, objection) == Some(
            message,
        )),
{
}

/// Only a verified address of the allowed domain gets through.
pub proof fn accepted_identity_is_verified(claims: JsonView, domain: Seq<char>)
    requires
        identity_verdict(claims, Some(domain)) is Ok,
    ensures
        field(claims, "email_verified"@, 3) == Some(JsonView::Bool(true)),
        text_field(claims, "email"@, 2) matches Some(email) && finishes_with(
            email,
            domain_suffix(domain),
        ),
        google_issuers().contains(text_field(claims, "iss"@, 1)->Some_0),
{
}

/// A key signs RS256 tokens: for RSA, meant for signatures if it says what it is meant for, and for
/// that algorithm if it names one.
pub open spec fn fits(key: JwkView) -> bool {
    &&& key.kty == seq!['R', 'S', 'A']
    &&& key.use_field matches Some(used) ==> used == seq!['s', 'i', 'g']
    &&& key.alg matches Some(alg) ==> alg == seq!['R', 'S', '2', '5', '6']
}

/// A token is checked with the first of the keys that has the name it asks for and fits; without
/// one it is not checked with any.
pub proof fn first_fitting_key_is_taken(keys: Seq<JwkView>, kid: Seq<char>)
    ensures
        match signing_key(keys, kid) {
            Some(key) => exists|i: int|
                0 <= i < keys.len() && #[trigger] keys[i] == key && key.kid == kid && fits(key) && (
                forall|j: int| 0 <= j < i ==> !((#[trigger] keys[j]).kid == kid && fits(keys[j]))),
            None => forall|j: int|
                0 <= j < keys.len() ==> !((#[trigger] keys[j]).kid == kid && fits(keys[j])),
        },
    decreases keys.len(),
{
    reveal_strlit("RSA");
    reveal_strlit("sig");
    reveal_strlit("RS256");
    assert("RSA"@ =~= seq!['R', 'S', 'A']);
    assert("sig"@ =~= seq!['s', 'i', 'g']);
    assert("RS256"@ =~= seq!['R', 'S', '2', '5', '6']);
    if keys.len() > 0 && !signs(keys[0], kid) {
        let rest = keys.skip(1);
        first_fitting_key_is_taken(rest, kid);
        match signing_key(rest, kid) {
            Some(key) => {
                let i = choose|i: int|
                    0 <= i < rest.len() && #[trigger] rest[i] == key && key.kid == kid && fits(key)
                        && (forall|j: int|
                        0 <= j < i ==> !((#[trigger] rest[j]).kid == kid && fits(rest[j])));
                assert(keys[i + 1] == key);
                assert forall|j: int| 0 <= j < i + 1 implies !((#[trigger] keys[j]).kid == kid
                    && fits(keys[j])) by {
                    if j > 0 {
                        assert(rest[j - 1] == keys[j]);
                    }
                }
            },
            None => {
                assert forall|j: int| 0 <= j < keys.len() implies !((#[trigger] keys[j]).kid == kid
                    && fits(keys[j])) by {
                    if j > 0 {
                        assert(rest[j - 1] == keys[j]);
                    }
                }
            },
        }
    } else if keys.len() > 0 {
        assert(keys[0] == signing_key(keys, kid)->Some_0);
    }
}

/// Claims are those of a verified user: an expiry, one of the two issuers, an address, and that it
/// is verified.
pub open spec fn verified_user(claims: JsonView, email: Seq<char>) -> bool {
    &&& claims is Object
    &&& claims.member("exp"@) matches Some(JsonView::Number(Some(_)))
    &&& claims.member("iss"@) == Some(JsonView::Text("https://accounts.google.com"@))
        || claims.member("iss"@) == Some(JsonView::Text("accounts.google.com"@))
    &&& claims.member("email"@) == Some(JsonView::Text(email))
    &&& claims.member("email_verified"@) == Some(JsonView::Bool(true))
}

/// A verified user is accepted exactly if no domain is asked for, or the address is one of the
/// domain: a name, an at sign and the domain.
pub proof fn verified_user_is_accepted(
    claims: JsonView,
    email: Seq<char>,
    domain: Seq<char>,
    name: Seq<char>,
)
    requires
        verified_user(claims, email),
        domain.len() > 0,
        domain[0] != '@',
    ensures
        identity_verdict(claims, None) is Ok,
        email == name + seq!['@'] + domain ==> identity_verdict(claims, Some(domain)) is Ok
            && identity_verdict(claims, Some(seq!['@'] + domain)) is Ok,
        identity_verdict(claims, Some(domain)) is Ok ==> exists|local: Seq<char>|
            email == local + seq!['@'] + domain,
{
    reveal_strlit("@");
    let suffix = seq!['@'] + domain;
    assert(google_issuers()[0] == "https://accounts.google.com"@);
    assert(google_issuers()[1] == "accounts.google.com"@);
    assert("@"@ =~= seq!['@']);
    assert(trim_start_char(domain, '@') == domain);
    assert(suffix.drop_first() =~= domain);
    assert(trim_start_char(suffix, '@') == trim_start_char(domain, '@'));
    assert(domain_suffix(domain) == suffix);
    assert(domain_suffix(suffix) == suffix);
    if email == name + seq!['@'] + domain {
        assert(email.skip(email.len() - suffix.len()) =~= suffix);
    }
    if identity_verdict(claims, Some(domain)) is Ok {
        let local = email.take(email.len() - suffix.len());
        assert(email =~= local + seq!['@'] + domain) by {
            assert(email.skip(email.len() - suffix.len()) == suffix);
        }
    }
}

/// Claims of anybody else are refused.
pub proof fn others_are_refused(claims: JsonView, domain: Option<Seq<char>>)
    requires
        claims is Object,
        identity_verdict(claims, domain) is Ok,
    ensures
        exists|email: Seq<char>| verified_user(claims, email),
{
    let email = text_field(claims, "email"@, 2)->Some_0;
    let iss = text_field(claims, "iss"@, 1)->Some_0;
    let i = choose|i: int| 0 <= i < google_issuers().len() && google_issuers()[i] == iss;
    assert(i == 0 || i == 1);
    assert(verified_user(claims, email));
}

/// An identity token is accepted exactly if its key is among the keys and can be used, its signature
/// holds, nobody objects to its claims, the decoder accepts it for the audience, and its claims are
/// accepted.
pub proof fn identity_token_is_accepted_for_its_claims(
    token: Seq<char>,
    kid: Seq<char>,
    keys: Seq<JwkView>,
    objection: Option<Seq<char>>,
    audience: Seq<char>,
    domain: Option<Seq<char>>,
)
    ensures
        google_verdict(token, kid, Ok(keys), objection, audience, domain) is Ok <==> (match signing_key(
            keys,
            kid,
        ) {
            Some(key) => {
                let decoded = rs256_claims(
                    token,
                    key.n,
                    key.e,
                    audience,
                    seq!["https://accounts.google.com"@, "accounts.google.com"@],
                ).claims;
                &&& rsa_key_error(key.n, key.e) is None
                &&& rs256_fault(token, key.n, key.e) is None
                &&& objection is None
                &&& decoded is Ok
                &&& identity_verdict(decoded->Ok_0, domain) is Ok
            },
            None => false,
        }),
        forall|message: Seq<char>| #[trigger]
            google_verdict(token, kid, Err(message), objection, audience, domain) is Err,
{
}

/// A token is refused for its time only if the decoder does so.
pub proof fn only_lapsed_tokens_are_refused_for_their_time(
    token: Seq<char>,
    kid: Seq<char>,
    certs: Result<Seq<JwkView>, Seq<char>>,
    objection: Option<Seq<char>>,
    audience: Seq<char>,
)
    requires
        timed(token, kid, certs, objection, audience),
    ensures
        certs matches Ok(keys) && (signing_key(keys, kid) matches Some(key) && rs256_claims(
            token,
            key.n,
            key.e,
            audience,
            seq!["https://accounts.google.com"@, "accounts.google.com"@],
        ).lapses && rs256_fault(token, key.n, key.e) is None && objection is None),
{
}

/// What a signed token claims decides: the list of services that it holds, each of them and no
/// other; without a list, that of the broker; and without one there, nothing is refused.
pub proof fn claims_decide(
    claims: JsonView,
    listed: Seq<Seq<char>>,
    targets: Seq<Seq<char>>,
    broker_allowed: Option<Seq<Seq<char>>>,
)
    requires
        claims is Object,
        claims.member("exp"@) matches Some(JsonView::Number(Some(_))),
    ensures
        claims.member("allowed_services"@) == Some(
            JsonView::List(listed.map_values(|s: Seq<char>| JsonView::Text(s))),
        ) ==> (claims_authorization(claims, targets, broker_allowed) is Ok <==> forall|i: int|
            0 <= i < targets.len() ==> listed.contains(#[trigger] targets[i])),
        claims.member("allowed_services"@) is None || claims.member("allowed_services"@) == Some(
            JsonView::Null,
        ) ==> (claims_authorization(claims, targets, broker_allowed) is Ok <==> (broker_allowed
            matches Some(list) ==> forall|i: int|
            0 <= i < targets.len() ==> list.contains(#[trigger] targets[i]))),
{
    let items = listed.map_values(|s: Seq<char>| JsonView::Text(s));
    if claims.member("allowed_services"@) == Some(JsonView::List(items)) {
        assert(all_texts(items));
        assert(texts_in(items) =~= listed);
        allow_list_is_enforced(targets, listed);
    }
    if let Some(list) = broker_allowed {
        allow_list_is_enforced(targets, list);
    }
}

/// Only claims with an expiry are looked at.
pub proof fn claims_need_an_expiry(
    claims: JsonView,
    targets: Seq<Seq<char>>,
    broker_allowed: Option<Seq<Seq<char>>>,
)
    requires
        claims is Object,
        claims_authorization(claims, targets, broker_allowed) is Ok,
    ensures
        claims.member("exp"@) matches Some(JsonView::Number(Some(_))),
{
}

/// The first service that is not on the list is the one that a refusal names.
pub proof fn refusal_names_the_first_unlisted(
    targets: Seq<Seq<char>>,
    allowed: Seq<Seq<char>>,
    i: int,
)
    requires
        0 <= i < targets.len(),
        !allowed.contains(targets[i]),
        forall|j: int| 0 <= j < i ==> allowed.contains(#[trigger] targets[j]),
    ensures
        authorization(targets, Some(allowed)) == Err::<(), Seq<char>>(
            "not authorized to intercept service '"@ + targets[i] + "'"@,
        ),
    decreases i,
{
    if i > 0 {
        let rest = targets.skip(1);
        assert forall|j: int| 0 <= j < i - 1 implies allowed.contains(#[trigger] rest[j]) by {
            assert(rest[j] == targets[j + 1]);
        }
        refusal_names_the_first_unlisted(rest, allowed, i - 1);
    }
}

/// The scheme in front of a token is taken off, in either spelling, with the blanks around the
/// token; a token without a scheme is taken as it is.
pub proof fn scheme_is_taken_off(token: Seq<char>)
    requires
        token.len() > 0,
        trim(token) == token,
    ensures
        bearer("Bearer "@ + token) == token,
        bearer("bearer "@ + token) == token,
        !begins_with(token, "Bearer "@) && !begins_with(token, "bearer "@) ==> bearer(token)
            == token,
{
    reveal_strlit("Bearer ");
    reveal_strlit("bearer ");
    assert(("Bearer "@ + token).take(7) =~= "Bearer "@);
    assert(("bearer "@ + token).take(7) =~= "bearer "@);
    assert(("Bearer "@ + token).skip(7) =~= token);
    assert(("bearer "@ + token).skip(7) =~= token);
}

/// The keys of a key set are read one by one, each with its own fields.
pub proof fn every_key_is_read(json: JsonView, i: int)
    requires
        json is Object,
        json.member("keys"@) matches Some(JsonView::List(items)) && 0 <= i < items.len()
            && items[i] is Object,
        jwks_of(json) is Some,
    ensures
        ({
            let items = json.member("keys"@)->Some_0->List_0;
            let keys = jwks_of(json)->Some_0;
            &&& keys.len() == items.len()
            &&& items[i].member("kid"@) == Some(JsonView::Text(keys[i].kid))
            &&& items[i].member("n"@) == Some(JsonView::Text(keys[i].n))
            &&& items[i].member("e"@) == Some(JsonView::Text(keys[i].e))
            &&& items[i].member("kty"@) == Some(JsonView::Text(keys[i].kty))
            &&& match keys[i].alg {
                Some(alg) => items[i].member("alg"@) == Some(JsonView::Text(alg)),
                None => items[i].member("alg"@) is None || items[i].member("alg"@) == Some(
                    JsonView::Null,
                ),
            }
            &&& match keys[i].use_field {
                Some(used) => items[i].member("use"@) == Some(JsonView::Text(used)),
                None => items[i].member("use"@) is None || items[i].member("use"@) == Some(
                    JsonView::Null,
                ),
            }
        }),
{
    let items = json.member("keys"@)->Some_0->List_0;
    assert(jwk_of(items[i]) is Some);
}

/// A signed token that nothing is wrong with is judged by its claims; one that the decoder refuses is
/// refused for the decoder's reason. Of what is wrong, a signature that does not hold comes first,
/// and of JSON that cannot be used the reader of the claims says more.
pub proof fn signed_token_is_judged_by_its_claims(
    claims: JsonView,
    reason: Seq<char>,
    objection: Seq<char>,
    targets: Seq<Seq<char>>,
    broker_allowed: Option<Seq<Seq<char>>>,
)
    ensures
        token_authorization(first_fault(None, None), Ok(claims), targets, broker_allowed)
            == claims_authorization(claims, targets, broker_allowed),
        token_authorization(first_fault(None, None), Err(reason), targets, broker_allowed) == Err::<
            (),
            Seq<char>,
        >(reason),
        token_authorization(
            first_fault(None, Some(objection)),
            Ok(claims),
            targets,
            broker_allowed,
        ) == Err::<(), Seq<char>>(objection),
        token_authorization(
            first_fault(Some((true, reason)), Some(objection)),
            Ok(claims),
            targets,
            broker_allowed,
        ) == Err::<(), Seq<char>>(objection),
        token_authorization(
            first_fault(Some((true, reason)), None),
            Ok(claims),
            targets,
            broker_allowed,
        ) == Err::<(), Seq<char>>(reason),
        token_authorization(
            first_fault(Some((false, reason)), Some(objection)),
            Ok(claims),
            targets,
            broker_allowed,
        ) == Err::<(), Seq<char>>(reason),
{
}

/// Claims may also stand in a list: the expiry first, then the services.
pub proof fn claims_may_stand_in_a_list(
    expiry: u64,
    listed: Seq<Seq<char>>,
    targets: Seq<Seq<char>>,
    broker_allowed: Option<Seq<Seq<char>>>,
)
    ensures
        ({
            let list = JsonView::List(listed.map_values(|s: Seq<char>| JsonView::Text(s)));
            let claims = JsonView::List(seq![JsonView::Number(Some(expiry)), list]);
            let open = JsonView::List(seq![JsonView::Number(Some(expiry)), JsonView::Null]);
            let short = JsonView::List(seq![JsonView::Number(Some(expiry))]);
            &&& claims_authorization(claims, targets, broker_allowed) is Ok <==> forall|i: int|
                0 <= i < targets.len() ==> listed.contains(#[trigger] targets[i])
            &&& claims_authorization(open, targets, broker_allowed) == authorization(
                targets,
                broker_allowed,
            )
            &&& claims_authorization(short, targets, broker_allowed) is Err
        }),
{
    let items = listed.map_values(|s: Seq<char>| JsonView::Text(s));
    let claims = JsonView::List(seq![JsonView::Number(Some(expiry)), JsonView::List(items)]);
    assert(field(claims, "exp"@, 0) == Some(JsonView::Number(Some(expiry))));
    assert(field(claims, "allowed_services"@, 1) == Some(JsonView::List(items)));
    assert(texts_in(items) =~= listed);
    allow_list_is_enforced(targets, listed);
    let open = JsonView::List(seq![JsonView::Number(Some(expiry)), JsonView::Null]);
    assert(field(open, "exp"@, 0) == Some(JsonView::Number(Some(expiry))));
    assert(field(open, "allowed_services"@, 1) == Some(JsonView::Null));
}

/// Each refusal of an identity names its reason: the issuer, then the missing address, then that the
/// address is not verified, then the domain.
pub proof fn refused_identity_is_told_why(
    claims: JsonView,
    issuer: Seq<char>,
    email: Seq<char>,
    domain: Seq<char>,
)
    requires
        claims is Object,
        claims.member("exp"@) matches Some(JsonView::Number(Some(_))),
        claims.member("iss"@) == Some(JsonView::Text(issuer)),
    ensures
        claims.member("email"@) is None && claims.member("email_verified"@) is None ==> (
        identity_verdict(claims, Some(domain)) == Err::<(), Seq<char>>(
            if issuer == "https://accounts.google.com"@ || issuer == "accounts.google.com"@ {
                "identity token missing email claim"@
            } else {
                "unexpected token issuer"@
            },
        )),
        claims.member("email"@) == Some(JsonView::Text(email)) && claims.member("email_verified"@)
            == Some(JsonView::Bool(false)) && issuer == "accounts.google.com"@ ==> identity_verdict(
            claims,
            Some(domain),
        ) == Err::<(), Seq<char>>("identity token email is not verified"@),
        claims.member("email"@) == Some(JsonView::Text(email)) && claims.member("email_verified"@)
            == Some(JsonView::Bool(true)) && issuer == "accounts.google.com"@ && domain.len() > 0
            && domain[0] != '@' && !finishes_with(email, seq!['@'] + domain) ==> identity_verdict(
            claims,
            Some(domain),
        ) == Err::<(), Seq<char>>(
            "identity token email "@ + email + " is outside allowed domain "@ + (seq!['@'] + domain),
        ),
{
    reveal_strlit("@");
    let issuers = google_issuers();
    assert(issuers[0] == "https://accounts.google.com"@ && issuers[1] == "accounts.google.com"@);
    if issuers.contains(issuer) {
        let i = choose|i: int| 0 <= i < issuers.len() && issuers[i] == issuer;
        assert(i == 0 || i == 1);
    }
    assert("@"@ =~= seq!['@']);
    trimming_takes_the_character(domain, '@');
}

/// A token that names no key, and one whose header cannot be read, are not looked at any further.
pub proof fn key_is_the_one_that_is_named(kid: Seq<char>, reason: Seq<char>)
    ensures
        asked_key(Ok(Some(kid))) == Ok::<Seq<char>, Seq<char>>(kid),
        asked_key(Ok(None)) == Err::<Seq<char>, Seq<char>>("identity token missing kid header"@),
        asked_key(Err(reason)) == Err::<Seq<char>, Seq<char>>(reason),
{
}

/// Keys come from the answer alone; without one, the reason says how far it got.
pub proof fn keys_come_from_the_answer(message: String, bytes: Vec<u8>, json: JsonView)
    ensures
        certs_of(CertsReply::NotAsked(message)) == Err::<Seq<JwkView>, Seq<char>>(message@),
        certs_of(CertsReply::NotFetched(message)) == Err::<Seq<JwkView>, Seq<char>>(
            "failed to fetch Google certs: "@ + message@,
        ),
        certs_of(CertsReply::NotRead(message)) == Err::<Seq<JwkView>, Seq<char>>(
            "failed to parse Google certs: "@ + message@,
        ),
        json_parse(bytes@) == Ok::<JsonView, Seq<char>>(json) ==> match jwks_of(json) {
            Some(keys) => certs_of(CertsReply::Body(bytes)) == Ok::<Seq<JwkView>, Seq<char>>(keys),
            None => certs_of(CertsReply::Body(bytes)) is Err,
        },
        json_parse(bytes@) is Err ==> certs_of(CertsReply::Body(bytes)) is Err,
{
}

/// A key set is read if every one of its keys is, and a key is if it has its four fields; nothing but
/// texts may stand in any of its fields.
pub proof fn whole_key_sets_are_read(json: JsonView, items: Seq<JsonView>)
    requires
        json is Object,
        json.member("keys"@) == Some(JsonView::List(items)),
        forall|i: int|
            0 <= i < items.len() ==> (#[trigger] items[i]) is Object && items[i].member("kid"@)->0
                is Text && items[i].member("kid"@) is Some && items[i].member("n"@) is Some
                && items[i].member("n"@)->0 is Text && items[i].member("e"@) is Some
                && items[i].member("e"@)->0 is Text && items[i].member("kty"@) is Some
                && items[i].member("kty"@)->0 is Text && items[i].member("alg"@) is None
                && items[i].member("use"@) is None,
    ensures
        jwks_of(json) matches Some(keys) && keys.len() == items.len(),
{
    assert forall|i: int| 0 <= i < items.len() implies jwk_of(#[trigger] items[i]) is Some by {
        assert(items[i] is Object);
    }
}

/// Blanks around a token do not count, with a scheme in front or without one.
pub proof fn blanks_around_a_token_do_not_count(blank: Seq<char>, token: Seq<char>)
    requires
        forall|i: int| 0 <= i < blank.len() ==> whitespace(#[trigger] blank[i]),
        token.len() > 0,
        !whitespace(token[0]),
        !whitespace(token.last()),
    ensures
        bearer("Bearer "@ + (blank + token + blank)) == token,
        bearer("bearer "@ + (blank + token + blank)) == token,
        !begins_with(blank + token + blank, "Bearer "@) && !begins_with(
            blank + token + blank,
            "bearer "@,
        ) ==> bearer(blank + token + blank) == token,
{
    reveal_strlit("Bearer ");
    reveal_strlit("bearer ");
    let value = blank + token + blank;
    trimming_takes_the_blanks(blank, token, blank);
    assert(("Bearer "@ + value).take(7) =~= "Bearer "@);
    assert(("bearer "@ + value).take(7) =~= "bearer "@);
    assert(("Bearer "@ + value).skip(7) =~= value);
    assert(("bearer "@ + value).skip(7) =~= value);
}

/// The claims of an identity token may also stand in a list: the expiry, the issuer, the address and
/// whether it is verified, in this order; and the fields of a key so: its name, modulus, exponent,
/// type, algorithm and use.
pub proof fn identities_and_keys_may_stand_in_lists(
    expiry: u64,
    email: Seq<char>,
    verified: bool,
    key: JwkView,
)
    requires
        key.alg is Some,
        key.use_field is Some,
    ensures
        identity_verdict(
            JsonView::List(
                seq![
                    JsonView::Number(Some(expiry)),
                    JsonView::Text("accounts.google.com"@),
                    JsonView::Text(email),
                    JsonView::Bool(verified),
                ],
            ),
            None,
        ) is Ok <==> verified,
        jwk_of(
            JsonView::List(
                seq![
                    JsonView::Text(key.kid),
                    JsonView::Text(key.n),
                    JsonView::Text(key.e),
                    JsonView::Text(key.kty),
                    JsonView::Text(key.alg->0),
                    JsonView::Text(key.use_field->0),
                ],
            ),
        ) == Some(key),
{
    assert(google_issuers()[1] == "accounts.google.com"@);
    assert(google_issuers().contains("accounts.google.com"@));
    let claims = JsonView::List(
        seq![
            JsonView::Number(Some(expiry)),
            JsonView::Text("accounts.google.com"@),
            JsonView::Text(email),
            JsonView::Bool(verified),
        ],
    );
    assert(field(claims, "exp"@, 0) == Some(JsonView::Number(Some(expiry))));
    assert(field(claims, "email_verified"@, 3) == Some(JsonView::Bool(verified)));
}

} // verus!
