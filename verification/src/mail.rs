//! Composing the outbound mail request that delivers a magic link.
//!
//! The request is built entirely from plain values: the provider URL, an
//! HTTP Basic authorization header derived from the configured API key,
//! and a `multipart/form-data` body carrying the five fields `from`, `to`,
//! `subject`, `text` and `html`, the last two rendered from the configured
//! templates by substituting the link. Sending the request is the caller's
//! business; everything it needs is in the returned `MailRequest`.

use vstd::prelude::*;
use vstd::string::StringExecFns;
use vstd::utf8::encode_utf8;
use base64::Engine;
use crate::multipart::{MultiPart, PartView, body_bytes, content_type_value};
use crate::utils::{all_alnum, render, render_spec};

verus! {

/// Mail provider configuration, as plain strings. The two template fields
/// hold the template text itself, with `{{url}}` marking where the link
/// goes.
pub struct MailgunConfig {
    pub url: String,
    pub api_key: String,
    pub from: String,
    pub subject: String,
    pub html_template: String,
    pub text_template: String,
}

/// What `base64_encode` returns for the given bytes. The encoding is a
/// function of the bytes alone; callers treat it as a name.
pub uninterp spec fn base64_of(bytes: Seq<u8>) -> Seq<char>;

/// Relies on the `base64` crate's standard-alphabet padded engine: the
/// encoding depends on the input bytes alone, and a padded encoding has
/// four output characters for every started group of three input bytes.
#[verifier::external_body]
fn base64_encode(bytes: &[u8]) -> (r: String)
    ensures
        r@ == base64_of(bytes@),
        r@.len() == 4 * ((bytes@.len() + 2) / 3),
{
    base64::engine::general_purpose::STANDARD.encode(bytes)
}

/// The five form fields of a mail request, as multipart parts, in order.
pub open spec fn mail_parts(
    from: Seq<char>,
    to: Seq<char>,
    subject: Seq<char>,
    text: Seq<char>,
    html: Seq<char>,
) -> Seq<PartView> {
    seq![
        PartView { name: "from"@, content_type: None, data: encode_utf8(from) },
        PartView { name: "to"@, content_type: None, data: encode_utf8(to) },
        PartView { name: "subject"@, content_type: None, data: encode_utf8(subject) },
        PartView { name: "text"@, content_type: None, data: encode_utf8(text) },
        PartView { name: "html"@, content_type: None, data: encode_utf8(html) },
    ]
}

/// `content_type` and `body` are one multipart encoding of the five mail
/// fields, under some random 16-character boundary id.
pub open spec fn mail_encodes(
    content_type: Seq<char>,
    body: Seq<u8>,
    from: Seq<char>,
    to: Seq<char>,
    subject: Seq<char>,
    text: Seq<char>,
    html: Seq<char>,
) -> bool {
    exists|id: Seq<char>|
        #![trigger body_bytes(id, mail_parts(from, to, subject, text, html))]
        id.len() == 16 && all_alnum(id) && content_type == content_type_value(id) && body
            == body_bytes(id, mail_parts(from, to, subject, text, html))
}

/// Builds the multipart content-type header and body for one mail: the
/// five fields, with the templates rendered against `url`.
pub fn multipart(config: &MailgunConfig, email: &str, url: &str) -> (r: (String, Vec<u8>))
    ensures
        mail_encodes(
            r.0@,
            r.1@,
            config.from@,
            email@,
            config.subject@,
            render_spec(config.text_template@, url@),
            render_spec(config.html_template@, url@),
        ),
{
    let mut mp = MultiPart::new();
    mp.str_part("from", None, config.from.as_str());
    mp.str_part("to", None, email);
    mp.str_part("subject", None, config.subject.as_str());
    let text = render(config.text_template.as_str(), url);
    mp.str_part("text", None, text.as_str());
    let html = render(config.html_template.as_str(), url);
    mp.str_part("html", None, html.as_str());
    proof {
        assert(mp@.parts =~= mail_parts(
            config.from@,
            email@,
            config.subject@,
            render_spec(config.text_template@, url@),
            render_spec(config.html_template@, url@),
        ));
    }
    let content_type = mp.to_content_type();
    let body = mp.to_raw();
    (content_type, body)
}

/// An outbound mail request, ready to send: where to post, the Basic
/// authorization to present, and the multipart payload.
pub struct MailRequest {
    pub url: String,
    pub authorization: String,
    pub content_type: String,
    pub body: Vec<u8>,
}

/// Builds the whole mail request for one recipient and one magic link.
pub fn mailgun_request(email: &str, config: &MailgunConfig, url: &str) -> (r: MailRequest)
    ensures
        r.url@ == config.url@,
        r.authorization@ == "Basic "@ + base64_of(encode_utf8("api:"@ + config.api_key@)),
        mail_encodes(
            r.content_type@,
            r.body@,
            config.from@,
            email@,
            config.subject@,
            render_spec(config.text_template@, url@),
            render_spec(config.html_template@, url@),
        ),
{
    let (content_type, body) = multipart(config, email, url);
    let mut creds = String::from_str("api:");
    creds.append(config.api_key.as_str());
    let encoded = base64_encode(creds.as_str().as_bytes());
    let mut authorization = String::from_str("Basic ");
    authorization.append(encoded.as_str());
    MailRequest { url: config.url.clone(), authorization, content_type, body }
}

} // verus!
