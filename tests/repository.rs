use reing::model::{
    Answer, AnswerInvalidReason, Question, QuestionInvalidReason, Repository, StoreAnswerError,
    StoreQuestionError, Validation,
};

fn ids(qs: &[Question]) -> Vec<i32> {
    qs.iter().map(|q| q.id).collect()
}

fn question(repo: &mut Repository, body: &str) -> Question {
    repo.store_question(String::from(body), String::from("10.0.0.1")).unwrap()
}

#[test]
fn stored_question_gets_the_next_id_and_is_visible() {
    let mut repo = Repository::new();
    let a = question(&mut repo, "first");
    let b = question(&mut repo, "second");
    assert_eq!(a.id, 1);
    assert_eq!(b.id, 2);
    assert!(!b.hidden);
    assert!(b.answer.is_none());
    assert_eq!(b.ip_address, "10.0.0.1");
    let found = repo.find_question(2).unwrap();
    assert_eq!(found.body, "second");
    assert!(repo.find_question(3).is_none());
    assert!(repo.find_question(0).is_none());
    assert!(repo.find_question(-1).is_none());
}

#[test]
fn blank_bodies_are_refused_and_nothing_is_stored() {
    let mut repo = Repository::new();
    for body in ["", " ", "\t\n", "\u{3000}", " \u{a0} "] {
        assert_eq!(
            repo.store_question(String::from(body), String::from("0.0.0.0")).unwrap_err(),
            StoreQuestionError::BlankBody
        );
    }
    assert!(repo.all_questions().is_empty());
    let q = question(&mut repo, "real question");
    for body in ["", "   ", "\u{3000}\u{3000}"] {
        assert_eq!(
            repo.store_answer(q.id, String::from(body)).unwrap_err(),
            StoreAnswerError::BlankBody
        );
    }
    assert!(repo.find_question(q.id).unwrap().answer.is_none());
    assert!(repo.answers(0, 10).is_empty());
}

#[test]
fn stored_answer_is_found_with_its_question() {
    let mut repo = Repository::new();
    let q = question(&mut repo, "how are you?");
    let stored = repo.store_answer(q.id, String::from("hello")).unwrap();
    assert_eq!(stored.id, q.id);
    assert_eq!(stored.answer.as_ref().unwrap().body, "hello");
    let found = repo.find_question(q.id).unwrap();
    assert_eq!(found.answer.unwrap().body, "hello");
}

#[test]
fn answer_to_missing_question_is_not_found() {
    let mut repo = Repository::new();
    question(&mut repo, "only one");
    assert_eq!(
        repo.store_answer(42, String::from("hello")).unwrap_err(),
        StoreAnswerError::NotFound
    );
    assert!(repo.answers(0, 10).is_empty());
    assert!(repo.find_answer(1).is_none());
}

#[test]
fn second_answer_is_refused() {
    let mut repo = Repository::new();
    let q = question(&mut repo, "once");
    repo.store_answer(q.id, String::from("first")).unwrap();
    assert_eq!(
        repo.store_answer(q.id, String::from("second")).unwrap_err(),
        StoreAnswerError::AlreadyAnswered
    );
    assert_eq!(repo.find_question(q.id).unwrap().answer.unwrap().body, "first");
}

#[test]
fn search_needs_every_keyword_in_either_body() {
    let mut repo = Repository::new();
    let q = question(&mut repo, "red fox");
    repo.store_answer(q.id, String::from("jumps high")).unwrap();
    assert_eq!(ids(&repo.search_answers(String::from("red high"))), vec![q.id]);
    assert!(repo.search_answers(String::from("red blue")).is_empty());
    assert_eq!(ids(&repo.search_answers(String::from("fox\u{3000}jumps"))), vec![q.id]);
    assert!(repo.search_answers(String::from("Red")).is_empty());
}

#[test]
fn search_skips_unanswered_questions_and_orders_newest_first() {
    let mut repo = Repository::new();
    let a = question(&mut repo, "apple pie");
    let b = question(&mut repo, "apple tart");
    let c = question(&mut repo, "apple juice");
    repo.store_answer(b.id, String::from("yes")).unwrap();
    repo.store_answer(a.id, String::from("no")).unwrap();
    assert_eq!(ids(&repo.search_answers(String::from("apple"))), vec![a.id, b.id]);
    assert!(!ids(&repo.search_answers(String::from(""))).contains(&c.id));
}

#[test]
fn timeline_pages_are_newest_first() {
    let mut repo = Repository::new();
    let a = question(&mut repo, "A");
    let b = question(&mut repo, "B");
    let c = question(&mut repo, "C");
    repo.store_answer(a.id, String::from("answer A")).unwrap();
    repo.store_answer(b.id, String::from("answer B")).unwrap();
    repo.store_answer(c.id, String::from("answer C")).unwrap();
    assert_eq!(ids(&repo.answers(0, 2)), vec![c.id, b.id]);
    assert_eq!(ids(&repo.answers(2, 2)), vec![a.id]);
    assert!(repo.answers(3, 2).is_empty());
    assert!(repo.answers(1, 0).is_empty());
}

#[test]
fn hidden_question_is_still_found_but_leaves_the_queue() {
    let mut repo = Repository::new();
    let q = question(&mut repo, "spam");
    let other = question(&mut repo, "fine");
    assert_eq!(ids(&repo.not_answered_questions()), vec![q.id, other.id]);
    repo.hide_question(q.id);
    let found = repo.find_question(q.id).unwrap();
    assert!(found.hidden);
    assert_eq!(found.body, "spam");
    assert_eq!(ids(&repo.not_answered_questions()), vec![other.id]);
    repo.hide_question(99);
    assert_eq!(repo.all_questions().len(), 2);
}

#[test]
fn update_question_changes_only_the_hidden_flag() {
    let mut repo = Repository::new();
    let q = question(&mut repo, "keep me");
    repo.store_answer(q.id, String::from("kept")).unwrap();
    let mut changed = repo.find_question(q.id).unwrap();
    changed.hidden = true;
    changed.body = String::from("other");
    repo.update_question(changed);
    let found = repo.find_question(q.id).unwrap();
    assert!(found.hidden);
    assert_eq!(found.body, "keep me");
    assert_eq!(found.answer.unwrap().body, "kept");
}

#[test]
fn answered_questions_leave_the_queue() {
    let mut repo = Repository::new();
    let a = question(&mut repo, "one");
    let b = question(&mut repo, "two");
    repo.store_answer(a.id, String::from("done")).unwrap();
    assert_eq!(ids(&repo.not_answered_questions()), vec![b.id]);
}

#[test]
fn next_and_previous_stop_at_the_ends() {
    let mut repo = Repository::new();
    let a = question(&mut repo, "oldest");
    let unanswered = question(&mut repo, "skipped");
    let c = question(&mut repo, "newest");
    repo.store_answer(c.id, String::from("c")).unwrap();
    repo.store_answer(a.id, String::from("a")).unwrap();
    assert!(repo.find_prev_answer(a.id).is_none());
    assert!(repo.find_next_answer(c.id).is_none());
    assert_eq!(repo.find_next_answer(a.id).unwrap().id, c.id);
    assert_eq!(repo.find_prev_answer(c.id).unwrap().id, a.id);
    assert_eq!(repo.find_next_answer(unanswered.id).unwrap().id, c.id);
}

#[test]
fn answers_are_found_by_their_id_and_by_question() {
    let mut repo = Repository::new();
    let a = question(&mut repo, "a");
    let b = question(&mut repo, "b");
    repo.store_answer(b.id, String::from("to b")).unwrap();
    let found = repo.find_answer(1).unwrap();
    assert_eq!(found.id, b.id);
    assert_eq!(found.answer.unwrap().id, 1);
    assert!(repo.find_answer(2).is_none());
    assert!(repo.find_answer_by_question_id(a.id).is_none());
    assert_eq!(repo.find_answer_by_question_id(b.id).unwrap().answer.unwrap().body, "to b");
}

#[test]
fn all_questions_attach_answers() {
    let mut repo = Repository::new();
    let a = question(&mut repo, "a");
    question(&mut repo, "b");
    repo.store_answer(a.id, String::from("x")).unwrap();
    let all = repo.all_questions();
    assert_eq!(ids(&all), vec![1, 2]);
    assert_eq!(all[0].answer.as_ref().unwrap().body, "x");
    assert!(all[1].answer.is_none());
}

#[test]
fn validation_rejects_blank_bodies() {
    let q = Question {
        id: 1,
        body: String::from(" \n "),
        ip_address: String::new(),
        created_at: 0,
        hidden: false,
        answer: None,
    };
    assert_eq!(q.validate(), Validation::Invalid(QuestionInvalidReason::BlankBody));
    let q = Question { body: String::from("ok"), ..q };
    assert_eq!(q.validate(), Validation::Valid);
    let a = Answer { id: 1, question_id: 1, body: String::new(), created_at: 0 };
    assert_eq!(a.validate(), Validation::Invalid(AnswerInvalidReason::BlankBody));
    let a = Answer { body: String::from("fine"), ..a };
    assert_eq!(a.validate(), Validation::Valid);
}

#[test]
fn timeline_answer_times_never_increase_and_ids_differ() {
    let mut repo = Repository::new();
    for body in ["a", "b", "c", "d"] {
        let q = question(&mut repo, body);
        repo.store_answer(q.id, String::from("answer")).unwrap();
    }
    let page = repo.answers(0, 10);
    assert_eq!(ids(&page), vec![4, 3, 2, 1]);
    for w in page.windows(2) {
        assert!(w[0].answer.as_ref().unwrap().created_at >= w[1].answer.as_ref().unwrap().created_at);
        assert_ne!(w[0].answer.as_ref().unwrap().id, w[1].answer.as_ref().unwrap().id);
    }
    for q in &page {
        assert_eq!(q.answer.as_ref().unwrap().question_id, q.id);
    }
}
