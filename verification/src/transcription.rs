//! What a Whisper-compatible transcription request carries and how its
//! HTTP response is read.

use vstd::prelude::*;
use vstd::string::{StringExecFns, StringSliceAdditionalSpecFns};

use crate::config::EngineConfig;
use crate::engine::TranscriptionError;
use crate::text::{newlines_to_spaces, replace_newlines, str_trim, trim_ws};

verus! {

broadcast use vstd::seq_lib::group_seq_properties;

/// The multipart text fields of a request, in order: the model, the
/// response format "text", then the language and the prompt when set.
pub open spec fn form_fields(
    model: Seq<char>,
    language: Option<Seq<char>>,
    prompt: Option<Seq<char>>,
) -> Seq<(Seq<char>, Seq<char>)> {
    seq![("model"@, model), ("response_format"@, "text"@)] + match language {
        Some(l) => seq![("language"@, l)],
        None => Seq::empty(),
    } + match prompt {
        Some(p) => seq![("prompt"@, p)],
        None => Seq::empty(),
    }
}

/// The form always starts with the model and the response format "text";
/// a configured language is always sent, with no field of that name
/// otherwise; and the prompt only adds its own field at the end: the other
/// fields do not depend on it.
pub proof fn lemma_form_fields_laws(
    model: Seq<char>,
    language: Option<Seq<char>>,
    prompt: Option<Seq<char>>,
    p: Seq<char>,
)
    ensures
        form_fields(model, language, prompt)[0] == ("model"@, model),
        form_fields(model, language, prompt)[1] == ("response_format"@, "text"@),
        language matches Some(l) ==> form_fields(model, language, prompt).contains(("language"@, l)),
        language is None ==> forall|i: int|
            0 <= i < form_fields(model, language, prompt).len() ==> (#[trigger] form_fields(
                model,
                language,
                prompt,
            )[i]).0 != "language"@,
        form_fields(model, language, Some(p)) == form_fields(model, language, None).push(("prompt"@, p)),
{
    let f = form_fields(model, language, prompt);
    if let Some(l) = language {
        assert(f[2] == ("language"@, l));
    } else {
        assert forall|i: int| 0 <= i < f.len() implies (#[trigger] f[i]).0 != "language"@ by {
            reveal_strlit("language");
            reveal_strlit("model");
            reveal_strlit("response_format");
            reveal_strlit("prompt");
            assert("language"@[0] == 'l');
            if i == 0 {
                assert("model"@[0] == 'm');
            } else if i == 1 {
                assert("response_format"@[0] == 'r');
            } else {
                assert("prompt"@[0] == 'p');
            }
        }
    }
    assert(form_fields(model, language, Some(p)) =~= form_fields(model, language, None).push(
        ("prompt"@, p),
    ));
}

/// The view of an optional string.
pub open spec fn opt_view(o: Option<String>) -> Option<Seq<char>> {
    match o {
        Some(s) => Some(s@),
        None => None,
    }
}

/// The text fields of the transcription form for `config`.
pub fn request_fields(config: &EngineConfig) -> (fields: Vec<(String, String)>)
    ensures
        fields@.map_values(|f: (String, String)| (f.0@, f.1@)) == form_fields(
            config.model@,
            opt_view(config.language),
            opt_view(config.prompt),
        ),
{
    let mut fields: Vec<(String, String)> = Vec::new();
    fields.push((String::from_str("model"), config.model.clone()));
    fields.push((String::from_str("response_format"), String::from_str("text")));
    if let Some(lang) = &config.language {
        fields.push((String::from_str("language"), lang.clone()));
    }
    if let Some(prompt) = &config.prompt {
        fields.push((String::from_str("prompt"), prompt.clone()));
    }
    proof {
        assert(fields@.map_values(|f: (String, String)| (f.0@, f.1@)) =~= form_fields(
            config.model@,
            opt_view(config.language),
            opt_view(config.prompt),
        ));
    }
    fields
}

/// The `Authorization` header value: `Bearer <key>` when an API key is
/// configured, none otherwise.
pub fn bearer_header(config: &EngineConfig) -> (h: Option<String>)
    ensures
        config.api_key@.len() == 0 ==> h is None,
        config.api_key@.len() > 0 ==> (h matches Some(v) && v@ == "Bearer "@ + config.api_key@),
{
    if config.api_key.as_str().is_empty() {
        None
    } else {
        let mut v = String::from_str("Bearer ");
        v.append(config.api_key.as_str());
        Some(v)
    }
}

/// The error message for a failed request: "HTTP <status>: <snippet>",
/// with line feeds in the snippet turned into spaces.
pub open spec fn http_error_message(status: Seq<char>, snippet: Seq<char>) -> Seq<char> {
    "HTTP "@ + status + ": "@ + newlines_to_spaces(snippet)
}

fn error_message(status: &str, snippet: &str) -> (e: TranscriptionError)
    ensures
        e.0@ == http_error_message(status@, snippet@),
{
    let mut m = String::from_str("HTTP ");
    m.append(status);
    m.append(": ");
    let cleaned = replace_newlines(snippet);
    m.append(cleaned.as_str());
    proof {
        assert(m@ =~= http_error_message(status@, snippet@));
    }
    TranscriptionError(m)
}

/// Reads a transcription response: on success the body without
/// surrounding white space; otherwise an error naming the status and the
/// first 200 bytes of the body (which must end on a character boundary
/// when the body is longer).
pub fn response_text(success: bool, status: &str, body: &str) -> (res: Result<
    String,
    TranscriptionError,
>)
    requires
        body.spec_bytes().len() <= usize::MAX,
        !success ==> body.spec_bytes().len() <= 200 || vstd::utf8::is_char_boundary(
            body.spec_bytes(),
            200,
        ),
    ensures
        success ==> (res matches Ok(t) && t@ == trim_ws(body@)),
        !success && body.spec_bytes().len() <= 200 ==> (res matches Err(e) && e.0@
            == http_error_message(status@, body@)),
        !success && body.spec_bytes().len() > 200 ==> (res matches Err(e) && exists|p: Seq<char>|
            #![trigger vstd::utf8::encode_utf8(p)]
            vstd::utf8::encode_utf8(p) == body.spec_bytes().take(200) && e.0@
                == http_error_message(status@, p)),
{
    if success {
        return Ok(String::from_str(str_trim(body)));
    }
    if body.len() <= 200 {
        Err(error_message(status, body))
    } else {
        let (head, _rest) = body.split_at(200);
        let e = error_message(status, head);
        proof {
            assert(head.spec_bytes() =~= body.spec_bytes().take(200));
            assert(vstd::utf8::encode_utf8(head@) == body.spec_bytes().take(200));

        }
        Err(e)
    }
}

/// Reads a transcription response the way the first pipeline generation
/// does: the same reading as `response_text`, with the error given as its
/// message alone.
pub fn whisper_response_text(success: bool, status: &str, body: &str) -> (res: Result<String, String>)
    requires
        body.spec_bytes().len() <= usize::MAX,
        !success ==> body.spec_bytes().len() <= 200 || vstd::utf8::is_char_boundary(
            body.spec_bytes(),
            200,
        ),
    ensures
        success ==> (res matches Ok(t) && t@ == trim_ws(body@)),
        !success && body.spec_bytes().len() <= 200 ==> (res matches Err(m) && m@
            == http_error_message(status@, body@)),
        !success && body.spec_bytes().len() > 200 ==> (res matches Err(m) && exists|p: Seq<char>|
            #![trigger vstd::utf8::encode_utf8(p)]
            vstd::utf8::encode_utf8(p) == body.spec_bytes().take(200) && m@
                == http_error_message(status@, p)),
{
    match response_text(success, status, body) {
        Ok(t) => Ok(t),
        Err(e) => Err(e.0),
    }
}

} // verus!
