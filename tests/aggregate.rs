use reing::aggregate::rows_to_questions;
use reing::model::{Answer, Question};

fn q(id: i32, body: &str) -> Question {
    Question {
        id,
        body: String::from(body),
        ip_address: String::from("0.0.0.0"),
        created_at: 0,
        hidden: false,
        answer: None,
    }
}

fn a(id: i32, question_id: i32, body: &str) -> Option<Answer> {
    Some(Answer { id, question_id, body: String::from(body), created_at: 0 })
}

#[test]
fn rows_are_grouped_once_per_question() {
    let rows = vec![
        (q(2, "two"), None),
        (q(1, "one"), a(10, 1, "first")),
        (q(2, "two"), a(11, 2, "late")),
        (q(1, "one"), a(12, 1, "second")),
        (q(3, "three"), None),
    ];
    let out = rows_to_questions(&rows);
    assert_eq!(out.iter().map(|q| q.id).collect::<Vec<_>>(), vec![2, 1, 3]);
    assert_eq!(out[0].answer.as_ref().unwrap().body, "late");
    assert_eq!(out[1].answer.as_ref().unwrap().body, "first");
    assert!(out[2].answer.is_none());
}

#[test]
fn no_rows_give_no_questions() {
    assert!(rows_to_questions(&Vec::new()).is_empty());
}
