use vstd::prelude::*;

use crate::model::Question;
use crate::text::string_from_chars;
use crate::utils::{decimal, push_number};

verus! {

/// The HTML entity for a character that `htmlescape::encode_minimal` replaces, if it is one.
pub open spec fn minimal_entity(c: char) -> Option<Seq<char>> {
    if c == '"' {
        Some("&quot;"@)
    } else if c == '&' {
        Some("&amp;"@)
    } else if c == '\'' {
        Some("&#x27;"@)
    } else if c == '<' {
        Some("&lt;"@)
    } else if c == '>' {
        Some("&gt;"@)
    } else {
        None
    }
}

/// `s` with `"`, `&`, `'`, `<` and `>` replaced by their HTML entities.
pub open spec fn escaped(s: Seq<char>) -> Seq<char>
    decreases s.len(),
{
    if s.len() == 0 {
        Seq::empty()
    } else {
        escaped(s.drop_last()) + match minimal_entity(s.last()) {
            Some(e) => e,
            None => seq![s.last()],
        }
    }
}

/// Relies on htmlescape's `encode_minimal`, which replaces each of `"`, `&`, `'`, `<` and `>`
/// by its entity and keeps every other character.
#[verifier::external_body]
fn escape_html(s: &str) -> (r: String)
    ensures
        r@ == escaped(s@),
{
    htmlescape::encode_minimal(s)
}

fn number_text(n: i32) -> (r: String)
    ensures
        r@ == decimal(n as int, 0),
{
    let mut cs: Vec<char> = Vec::new();
    push_number(n as i64, 0, &mut cs);
    assert(cs@ =~= decimal(n as int, 0));
    string_from_chars(&cs)
}

/// The subject of the mail that announces a new question.
pub open spec fn question_mail_subject() -> Seq<char> {
    "質問が投稿されました"@
}

/// The subject line of that mail.
pub fn question_email_subject() -> (r: String)
    ensures
        r@ == question_mail_subject(),
{
    String::from_str("質問が投稿されました")
}

/// Where the administrator answers question `id`.
pub fn question_url(domain: &str, id: i32) -> (r: String)
    ensures
        r@ == "https://"@ + domain@ + "/admin/question/"@ + decimal(id as int, 0),
{
    let id_text = number_text(id);
    String::from_str("https://").concat(domain).concat("/admin/question/").concat(id_text.as_str())
}

/// Where the public reads answer `id`.
pub fn answer_url(domain: &str, id: i32) -> (r: String)
    ensures
        r@ == "https://"@ + domain@ + "/answer/"@ + decimal(id as int, 0),
{
    let id_text = number_text(id);
    String::from_str("https://").concat(domain).concat("/answer/").concat(id_text.as_str())
}

/// The body of the mail that announces `question`: its text, escaped, and a link to answer it.
pub fn question_email_html(question: &Question, domain: &str) -> (r: String)
    ensures
        r@ == "<p>質問が投稿されました</p><p>"@ + escaped(question.body@) + "</p><p><a href='"@
            + "https://"@ + domain@ + "/admin/question/"@ + decimal(question.id as int, 0) + "'>"@
            + "https://"@ + domain@ + "/admin/question/"@ + decimal(question.id as int, 0),
{
    let url = question_url(domain, question.id);
    let body = escape_html(question.body.as_str());
    let r = String::from_str("<p>質問が投稿されました</p><p>").concat(body.as_str()).concat(
        "</p><p><a href='",
    ).concat(url.as_str()).concat("'>").concat(url.as_str());
    assert(r@ =~= "<p>質問が投稿されました</p><p>"@ + escaped(question.body@) + "</p><p><a href='"@
        + "https://"@ + domain@ + "/admin/question/"@ + decimal(question.id as int, 0) + "'>"@
        + "https://"@ + domain@ + "/admin/question/"@ + decimal(question.id as int, 0));
    r
}

/// The post that announces an answer: its text, the tag and the link to it.
pub fn tweet_text(answer_body: &str, domain: &str, answer_id: i32) -> (r: String)
    ensures
        r@ == answer_body@ + " #reing "@ + "https://"@ + domain@ + "/answer/"@ + decimal(
            answer_id as int,
            0,
        ),
{
    let url = answer_url(domain, answer_id);
    let r = String::from_str(answer_body).concat(" #reing ").concat(url.as_str());
    assert(r@ =~= answer_body@ + " #reing "@ + "https://"@ + domain@ + "/answer/"@ + decimal(
        answer_id as int,
        0,
    ));
    r
}

} // verus!
