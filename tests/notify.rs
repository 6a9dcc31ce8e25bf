use reing::model::Question;
use reing::notify::{answer_url, question_email_html, question_email_subject, question_url, tweet_text};

#[test]
fn question_mail_escapes_the_body_and_links_to_the_question() {
    let q = Question {
        id: 12,
        body: String::from("<b>&'\"x"),
        ip_address: String::from("0.0.0.0"),
        created_at: 0,
        hidden: false,
        answer: None,
    };
    assert_eq!(
        question_email_html(&q, "example.com"),
        "<p>質問が投稿されました</p><p>&lt;b&gt;&amp;&#x27;&quot;x</p><p><a href='https://example.com/admin/question/12'>https://example.com/admin/question/12"
    );
    assert_eq!(question_email_subject(), "質問が投稿されました");
}

#[test]
fn urls_carry_the_ids() {
    assert_eq!(question_url("example.com", 7), "https://example.com/admin/question/7");
    assert_eq!(answer_url("example.com", 1024), "https://example.com/answer/1024");
}

#[test]
fn tweet_text_tags_and_links_the_answer() {
    assert_eq!(tweet_text("hi", "example.com", 3), "hi #reing https://example.com/answer/3");
}
