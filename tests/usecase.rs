use reing::entity::Answerer;
use reing::model::Repository;
use reing::usecase::{
    post_question, see_all_answers, see_all_not_answered_questions, see_answer_detail,
    AnswererAuthenticationDTO, NewQuestionDTO, PostQuestionError, SeeAllNotAnsweredQuestionsError,
};

// A bcrypt hash of "password" at the lowest cost, so that checking it stays quick.
const PASSWORD_HASH: &str = "$2a$04$UuTkLRZZ6QofpDOlMz32MuuxEHA43WOemOYHPz6.SjsVsyO1tDU96";

fn answerers() -> Vec<Answerer> {
    vec![Answerer {
        id: 7,
        email: String::from("example1@example.com"),
        password_encrypted: String::from(PASSWORD_HASH),
    }]
}

fn repository_with_questions() -> Repository {
    let mut repo = Repository::new();
    repo.store_question(String::from("body1"), String::from("0.0.0.0")).unwrap();
    repo.store_question(String::from("body2"), String::from("0.0.0.0")).unwrap();
    repo.store_question(String::from("body3"), String::from("0.0.0.0")).unwrap();
    repo.store_answer(2, String::from("answered")).unwrap();
    repo.hide_question(3);
    repo
}

#[test]
fn test_success() {
    let repo = repository_with_questions();
    let auth = AnswererAuthenticationDTO { answerer_id: 7, password: String::from("password") };
    let output = see_all_not_answered_questions(&repo, &answerers(), auth).unwrap();
    assert_eq!(output.len(), 1);
    assert_eq!(output[0].question_id, 1);
    assert_eq!(output[0].question_body, "body1");
}

#[test]
fn test_wrong_password() {
    let repo = repository_with_questions();
    let auth = AnswererAuthenticationDTO { answerer_id: 7, password: String::from("passw0rd") };
    assert_eq!(
        see_all_not_answered_questions(&repo, &answerers(), auth).unwrap_err(),
        SeeAllNotAnsweredQuestionsError::AuthenticationFailed
    );
}

#[test]
fn test_not_exist_answerer() {
    let repo = repository_with_questions();
    let auth = AnswererAuthenticationDTO { answerer_id: 8, password: String::from("password") };
    assert_eq!(
        see_all_not_answered_questions(&repo, &answerers(), auth).unwrap_err(),
        SeeAllNotAnsweredQuestionsError::AuthenticationFailed
    );
}

#[test]
fn test_valid_request() {
    let mut repo = Repository::new();
    let input = NewQuestionDTO {
        question_body: String::from("Some body"),
        question_ip_address: String::from("10.0.0.1"),
    };
    let result = post_question(&mut repo, input);
    assert_eq!(result.map(|q| q.question_body), Ok("Some body".to_string()));
    assert_eq!(repo.all_questions().len(), 1);
}

#[test]
fn test_blank_body_request() {
    let mut repo = Repository::new();
    let input = NewQuestionDTO {
        question_body: String::from(""),
        question_ip_address: String::from("10.0.0.1"),
    };
    let result = post_question(&mut repo, input);
    assert_eq!(result.map(|q| q.question_id), Err(PostQuestionError::BlankBody));
    assert!(repo.all_questions().is_empty());
}

#[test]
fn see_all_answers_test_usecase() {
    let mut repo = Repository::new();
    let q = repo.store_question(String::from("aaa"), String::from("0.0.0.0")).unwrap();
    let answered = repo.store_answer(q.id, "answer1".to_string()).unwrap();
    let answer_id = answered.answer.unwrap().id;
    let result_answers = see_all_answers(&repo);
    assert_eq!(result_answers.first().unwrap().answer_id, answer_id);
    assert_eq!(result_answers[0].answer_body, "answer1");
    assert_eq!(result_answers[0].question_body, "aaa");
}

#[test]
fn see_answer_detail_test_usecase() {
    let mut repo = Repository::new();
    let q = repo.store_question(String::from("aaa"), String::from("0.0.0.0")).unwrap();
    let answered = repo.store_answer(q.id, "answer1".to_string()).unwrap();
    let answer_id = answered.answer.unwrap().id;
    let detail = see_answer_detail(&repo, answer_id);
    assert_eq!(detail.map(|a| a.answer_id), Some(answer_id));
    assert!(see_answer_detail(&repo, answer_id + 1).is_none());
}
