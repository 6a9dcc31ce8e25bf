use vstd::prelude::*;

use crate::entity::Answerer;
use crate::model::{
    moderation_queue, views, Question, QuestionView, Repository, StoreQuestionError,
};
use crate::text::is_blank;

verus! {

/// A question as the submitter and the answerer see it.
#[derive(Debug, Clone)]
pub struct QuestionDTO {
    pub question_id: i32,
    pub question_body: String,
    pub questioned_at: i64,
}

/// What a question DTO holds, as the contracts speak of it.
pub struct QuestionDTOView {
    pub question_id: i32,
    pub question_body: Seq<char>,
    pub questioned_at: i64,
}

impl View for QuestionDTO {
    type V = QuestionDTOView;

    open spec fn view(&self) -> QuestionDTOView {
        QuestionDTOView {
            question_id: self.question_id,
            question_body: self.question_body@,
            questioned_at: self.questioned_at,
        }
    }
}

/// The DTO of a question.
pub open spec fn question_dto_of(q: QuestionView) -> QuestionDTOView {
    QuestionDTOView { question_id: q.id, question_body: q.body, questioned_at: q.created_at }
}

/// The views of a list of question DTOs.
pub open spec fn question_dto_views(v: Seq<QuestionDTO>) -> Seq<QuestionDTOView> {
    v.map_values(|d: QuestionDTO| d@)
}

fn model2dto(question: &Question) -> (r: QuestionDTO)
    ensures
        r@ == question_dto_of(question@),
{
    QuestionDTO {
        question_id: question.id,
        question_body: question.body.clone(),
        questioned_at: question.created_at,
    }
}

/// What a visitor submits.
#[derive(Debug, Clone)]
pub struct NewQuestionDTO {
    pub question_body: String,
    pub question_ip_address: String,
}

#[derive(Debug, PartialEq, Eq, Structural)]
pub enum PostQuestionError {
    BlankBody,
}

/// Stores a visitor's question; a blank body is refused and nothing is stored.
pub fn post_question(repo: &mut Repository, input: NewQuestionDTO) -> (r: Result<
    QuestionDTO,
    PostQuestionError,
>)
    requires
        old(repo).wf(),
        !is_blank(input.question_body@) ==> old(repo).stored().len() < i32::MAX,
    ensures
        final(repo).wf(),
        is_blank(input.question_body@) ==> (r matches Err(PostQuestionError::BlankBody))
            && *final(repo) == *old(repo),
        final(repo).answer_order() == old(repo).answer_order(),
        !is_blank(input.question_body@) ==> r is Ok && final(repo).stored() == old(
            repo,
        ).stored().push(final(repo).stored().last()) && r->Ok_0@ == question_dto_of(
            final(repo).stored().last(),
        ) && final(repo).stored().last().id == old(repo).stored().len() + 1
            && final(repo).stored().last().body == input.question_body@
            && final(repo).stored().last().ip_address == input.question_ip_address@
            && !final(repo).stored().last().hidden && final(repo).stored().last().answer is None,
{
    match repo.store_question(input.question_body, input.question_ip_address) {
        Ok(q) => Ok(model2dto(&q)),
        Err(StoreQuestionError::BlankBody) => Err(PostQuestionError::BlankBody),
    }
}

/// The credentials an answerer presents.
#[derive(Debug, Clone)]
pub struct AnswererAuthenticationDTO {
    pub answerer_id: i32,
    pub password: String,
}

#[derive(Debug, PartialEq, Eq, Structural)]
pub enum SeeAllNotAnsweredQuestionsError {
    AuthenticationFailed,
}

/// The first answerer in `answerers` with id `id`.
pub open spec fn answerer_with_id(answerers: Seq<Answerer>, id: i32) -> Option<Answerer>
    decreases answerers.len(),
{
    if answerers.len() == 0 {
        None
    } else if answerers[0].id == id {
        Some(answerers[0])
    } else {
        answerer_with_id(answerers.drop_first(), id)
    }
}

fn find_answerer(answerers: &Vec<Answerer>, id: i32) -> (r: Option<&Answerer>)
    ensures
        match r {
            Some(a) => answerer_with_id(answerers@, id) == Some(*a),
            None => answerer_with_id(answerers@, id) is None,
        },
{
    let mut i: usize = 0;
    assert(answerers@.subrange(0, answerers@.len() as int) =~= answerers@);
    while i < answerers.len()
        invariant
            i <= answerers@.len(),
            answerer_with_id(answerers@, id) == answerer_with_id(answerers@.subrange(i as int, answerers@.len() as int), id),
        decreases answerers@.len() - i,
    {
        let ghost rest = answerers@.subrange(i as int, answerers@.len() as int);
        assert(rest.drop_first() =~= answerers@.subrange(i + 1, answerers@.len() as int));
        if answerers[i].id == id {
            return Some(&answerers[i]);
        }
        i = i + 1;
    }
    None
}

/// The moderation queue, for an answerer whose credentials hold: the questions that wait for an
/// answer and are not hidden, in the order of their ids.
pub fn see_all_not_answered_questions(
    repo: &Repository,
    answerers: &Vec<Answerer>,
    auth: AnswererAuthenticationDTO,
) -> (r: Result<Vec<QuestionDTO>, SeeAllNotAnsweredQuestionsError>)
    requires
        repo.wf(),
    ensures
        match answerer_with_id(answerers@, auth.answerer_id) {
            Some(a) => if a.admits(auth.password@) {
                r is Ok && question_dto_views(r->Ok_0@) == moderation_queue(repo.stored()).map_values(
                    |q: QuestionView| question_dto_of(q),
                )
            } else {
                r matches Err(SeeAllNotAnsweredQuestionsError::AuthenticationFailed)
            },
            None => r matches Err(SeeAllNotAnsweredQuestionsError::AuthenticationFailed),
        },
{
    let admitted = match find_answerer(answerers, auth.answerer_id) {
        Some(a) => a.authenticate(auth.password),
        None => false,
    };
    if !admitted {
        return Err(SeeAllNotAnsweredQuestionsError::AuthenticationFailed);
    }
    let qs = repo.not_answered_questions();
    let ghost all = views(qs@);
    let mut out: Vec<QuestionDTO> = Vec::new();
    let mut i: usize = 0;
    while i < qs.len()
        invariant
            all == views(qs@),
            i <= qs@.len(),
            question_dto_views(out@) == all.subrange(0, i as int).map_values(
                |q: QuestionView| question_dto_of(q),
            ),
        decreases qs@.len() - i,
    {
        let d = model2dto(&qs[i]);
        let ghost prev = out@;
        out.push(d);
        assert(question_dto_views(out@) =~= question_dto_views(prev).push(d@));
        assert(all.subrange(0, i + 1).map_values(|q: QuestionView| question_dto_of(q))
            =~= all.subrange(0, i as int).map_values(|q: QuestionView| question_dto_of(q)).push(question_dto_of(all[i as int])));
        i = i + 1;
    }
    assert(all.subrange(0, i as int) =~= all);
    Ok(out)
}

/// An answer with its question, as the public pages show them.
#[derive(Debug, Clone)]
pub struct AnswerDTO {
    pub answer_id: i32,
    pub answer_body: String,
    pub answered_at: i64,
    pub question_id: i32,
    pub question_body: String,
    pub questioned_at: i64,
}

/// What an answer DTO holds, as the contracts speak of it.
pub struct AnswerDTOView {
    pub answer_id: i32,
    pub answer_body: Seq<char>,
    pub answered_at: i64,
    pub question_id: i32,
    pub question_body: Seq<char>,
    pub questioned_at: i64,
}

impl View for AnswerDTO {
    type V = AnswerDTOView;

    open spec fn view(&self) -> AnswerDTOView {
        AnswerDTOView {
            answer_id: self.answer_id,
            answer_body: self.answer_body@,
            answered_at: self.answered_at,
            question_id: self.question_id,
            question_body: self.question_body@,
            questioned_at: self.questioned_at,
        }
    }
}

/// The view of an answered question as an answer with its question.
pub open spec fn answer_dto_of(q: QuestionView) -> AnswerDTOView {
    AnswerDTOView {
        answer_id: q.answer->0.id,
        answer_body: q.answer->0.body,
        answered_at: q.answer->0.created_at,
        question_id: q.id,
        question_body: q.body,
        questioned_at: q.created_at,
    }
}

/// The views of a list of answer DTOs.
pub open spec fn answer_dto_views(v: Seq<AnswerDTO>) -> Seq<AnswerDTOView> {
    v.map_values(|d: AnswerDTO| d@)
}

fn entity2dto(q: &Question) -> (r: AnswerDTO)
    requires
        q.answer is Some,
    ensures
        r@ == answer_dto_of(q@),
{
    match &q.answer {
        Some(a) => AnswerDTO {
            answer_id: a.id,
            answer_body: a.body.clone(),
            answered_at: a.created_at,
            question_id: q.id,
            question_body: q.body.clone(),
            questioned_at: q.created_at,
        },
        None => {
            assert(false);
            AnswerDTO {
                answer_id: 0,
                answer_body: String::new(),
                answered_at: 0,
                question_id: 0,
                question_body: String::new(),
                questioned_at: 0,
            }
        },
    }
}

/// Every answer with its question, the most recently answered first.
pub fn see_all_answers(repo: &Repository) -> (r: Vec<AnswerDTO>)
    requires
        repo.wf(),
    ensures
        answer_dto_views(r@) == repo.timeline().map_values(|q: QuestionView| answer_dto_of(q)),
{
    proof {
        repo.lemma_timeline();
    }
    let qs = repo.answers(0, i64::MAX);
    let ghost all = views(qs@);
    assert(all =~= repo.timeline());
    let mut out: Vec<AnswerDTO> = Vec::new();
    let mut i: usize = 0;
    while i < qs.len()
        invariant
            all == views(qs@),
            all == repo.timeline(),
            forall|k: int| 0 <= k < all.len() ==> (#[trigger] all[k]).answer is Some,
            i <= qs@.len(),
            answer_dto_views(out@) == all.subrange(0, i as int).map_values(
                |q: QuestionView| answer_dto_of(q),
            ),
        decreases qs@.len() - i,
    {
        assert(all[i as int].answer is Some);
        let d = entity2dto(&qs[i]);
        let ghost prev = out@;
        out.push(d);
        assert(answer_dto_views(out@) =~= answer_dto_views(prev).push(d@));
        assert(all.subrange(0, i + 1).map_values(|q: QuestionView| answer_dto_of(q))
            =~= all.subrange(0, i as int).map_values(|q: QuestionView| answer_dto_of(q)).push(answer_dto_of(all[i as int])));
        i = i + 1;
    }
    assert(all.subrange(0, i as int) =~= all);
    out
}

/// The answer with id `answer_id`, with its question.
pub fn see_answer_detail(repo: &Repository, answer_id: i32) -> (r: Option<AnswerDTO>)
    requires
        repo.wf(),
    ensures
        match r {
            Some(d) => exists|i: int|
                0 <= i < repo.stored().len() && (#[trigger] repo.stored()[i]).answer is Some
                    && repo.stored()[i].answer->0.id == answer_id && d@ == answer_dto_of(
                    repo.stored()[i],
                ),
            None => forall|i: int|
                0 <= i < repo.stored().len() ==> (#[trigger] repo.stored()[i]).answer is None
                    || repo.stored()[i].answer->0.id != answer_id,
        },
{
    match repo.find_answer(answer_id) {
        Some(q) => {
            assert(repo.stored()[q@.id - 1] == q@);
            Some(entity2dto(&q))
        },
        None => None,
    }
}

} // verus!
