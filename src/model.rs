use vstd::prelude::*;

use crate::text::{chars_of, contains_chars, is_blank, is_blank_text};

verus! {

/// An answer as stored: its own fields and the id of the question it answers.
#[derive(Debug, Clone)]
pub struct Answer {
    pub id: i32,
    pub question_id: i32,
    pub body: String,
    pub created_at: i64,
}

/// A question together with its answer, if it has one.
#[derive(Debug, Clone)]
pub struct Question {
    pub id: i32,
    pub body: String,
    pub ip_address: String,
    pub created_at: i64,
    pub hidden: bool,
    pub answer: Option<Answer>,
}

/// What an answer is, as the contracts speak of it.
pub struct AnswerView {
    pub id: i32,
    pub question_id: i32,
    pub body: Seq<char>,
    pub created_at: i64,
}

/// What a question is, with its answer, as the contracts speak of it.
pub struct QuestionView {
    pub id: i32,
    pub body: Seq<char>,
    pub ip_address: Seq<char>,
    pub created_at: i64,
    pub hidden: bool,
    pub answer: Option<AnswerView>,
}

impl View for Answer {
    type V = AnswerView;

    open spec fn view(&self) -> AnswerView {
        AnswerView {
            id: self.id,
            question_id: self.question_id,
            body: self.body@,
            created_at: self.created_at,
        }
    }
}

/// The view of an optional answer.
pub open spec fn answer_view(a: Option<Answer>) -> Option<AnswerView> {
    match a {
        Some(a) => Some(a@),
        None => None,
    }
}

impl View for Question {
    type V = QuestionView;

    open spec fn view(&self) -> QuestionView {
        QuestionView {
            id: self.id,
            body: self.body@,
            ip_address: self.ip_address@,
            created_at: self.created_at,
            hidden: self.hidden,
            answer: answer_view(self.answer),
        }
    }
}

/// The views of a sequence of questions.
pub open spec fn views(qs: Seq<Question>) -> Seq<QuestionView> {
    qs.map_values(|q: Question| q@)
}

/// The view of an optional question.
pub open spec fn option_view(q: Option<Question>) -> Option<QuestionView> {
    match q {
        Some(q) => Some(q@),
        None => None,
    }
}

/// Why a question was not stored.
#[derive(Debug, PartialEq, Eq, Structural)]
pub enum StoreQuestionError {
    BlankBody,
}

/// Why an answer was not stored.
#[derive(Debug, PartialEq, Eq, Structural)]
pub enum StoreAnswerError {
    BlankBody,
    NotFound,
    AlreadyAnswered,
}

/// The answer row for question `qid` among `rows` (the last one, were there several).
pub open spec fn answer_in(rows: Seq<AnswerView>, qid: i32) -> Option<AnswerView>
    decreases rows.len(),
{
    if rows.len() == 0 {
        None
    } else if rows.last().question_id == qid {
        Some(rows.last())
    } else {
        answer_in(rows.drop_last(), qid)
    }
}

/// A question is found by a keyword when the keyword occurs in its body or in its answer's body.
pub open spec fn matches_keyword(q: QuestionView, keyword: Seq<char>) -> bool {
    crate::text::contains(q.body, keyword) || (q.answer is Some && crate::text::contains(
        q.answer->0.body,
        keyword,
    ))
}

/// A question is found by a list of keywords when it is found by each of them.
pub open spec fn matches_all(q: QuestionView, keywords: Seq<Seq<char>>) -> bool {
    forall|k: int| 0 <= k < keywords.len() ==> matches_keyword(q, #[trigger] keywords[k])
}

/// The separators of keywords in a search query: the ASCII space and the full-width space.
pub open spec fn is_separator(c: char) -> bool {
    c == ' ' || c == '\u{3000}'
}

/// The pieces of `s` between separators, empty pieces included, as `str::split` gives them.
pub open spec fn keywords_of(s: Seq<char>) -> Seq<Seq<char>>
    decreases s.len(),
{
    if s.len() == 0 {
        seq![Seq::empty()]
    } else {
        let r = keywords_of(s.drop_last());
        if is_separator(s.last()) {
            r.push(Seq::empty())
        } else {
            r.update(r.len() - 1, r.last().push(s.last()))
        }
    }
}

/// The repository of questions and answers: two relations, rows of questions and rows of
/// answers, each answer row pointing at its question by id.
pub struct Repository {
    questions: Vec<QuestionRow>,
    answers: Vec<Answer>,
}

struct QuestionRow {
    id: i32,
    body: String,
    ip_address: String,
    created_at: i64,
    hidden: bool,
}

impl QuestionRow {
    spec fn with_answer(self, a: Option<AnswerView>) -> QuestionView {
        QuestionView {
            id: self.id,
            body: self.body@,
            ip_address: self.ip_address@,
            created_at: self.created_at,
            hidden: self.hidden,
            answer: a,
        }
    }
}

/// `s` from position `offset` on, at most `count` of them.
pub open spec fn page(s: Seq<QuestionView>, offset: int, count: int) -> Seq<QuestionView> {
    let lo = if offset < s.len() {
        offset
    } else {
        s.len() as int
    };
    let hi = if offset + count < s.len() {
        offset + count
    } else {
        s.len() as int
    };
    s.subrange(lo, hi)
}

/// The questions of `s` that wait for an answer and are not hidden.
pub open spec fn moderation_queue(s: Seq<QuestionView>) -> Seq<QuestionView> {
    s.filter(awaits_answer())
}

/// Holds of a question that waits for an answer and is not hidden.
pub open spec fn awaits_answer() -> spec_fn(QuestionView) -> bool {
    |q: QuestionView| q.answer is None && !q.hidden
}

/// The questions of `s` that every keyword finds.
pub open spec fn search_results(s: Seq<QuestionView>, keywords: Seq<Seq<char>>) -> Seq<
    QuestionView,
> {
    s.filter(found_by(keywords))
}

/// Holds of a question that every keyword finds.
pub open spec fn found_by(keywords: Seq<Seq<char>>) -> spec_fn(QuestionView) -> bool {
    |q: QuestionView| matches_all(q, keywords)
}

/// The views of a list of character vectors.
pub open spec fn char_views(v: Seq<Vec<char>>) -> Seq<Seq<char>> {
    v.map_values(|w: Vec<char>| w@)
}

/// The keywords of a search query: its pieces between ASCII and full-width spaces.
pub fn split_keywords(query: &str) -> (r: Vec<Vec<char>>)
    ensures
        char_views(r@) == keywords_of(query@),
{
    let cs = chars_of(query);
    let mut done: Vec<Vec<char>> = Vec::new();
    let mut cur: Vec<char> = Vec::new();
    let mut i: usize = 0;
    while i < cs.len()
        invariant
            cs@ == query@,
            i <= cs@.len(),
            char_views(done@).push(cur@) == keywords_of(cs@.subrange(0, i as int)),
        decreases cs@.len() - i,
    {
        let c = cs[i];
        let ghost pre = cs@.subrange(0, i as int);
        assert(cs@.subrange(0, i + 1).drop_last() =~= pre);
        if c == ' ' || c == '\u{3000}' {
            let ghost before = done@;
            let full = cur;
            done.push(full);
            cur = Vec::new();
            assert(char_views(done@) =~= char_views(before).push(full@));
            assert(char_views(done@).push(cur@) =~= keywords_of(pre).push(Seq::empty()));
        } else {
            let ghost k = keywords_of(pre);
            cur.push(c);
            assert(char_views(done@).push(cur@) =~= k.update(k.len() - 1, k.last().push(c)));
        }
        i = i + 1;
    }
    assert(cs@.subrange(0, cs@.len() as int) =~= cs@);
    done.push(cur);
    done
}

/// Whether every keyword occurs in the question's body or in its answer's body.
fn matches_keywords(q: &Question, keywords: &Vec<Vec<char>>) -> (r: bool)
    ensures
        r == matches_all(q@, char_views(keywords@)),
{
    let body = chars_of(q.body.as_str());
    let answer_body: Option<Vec<char>> = match &q.answer {
        Some(a) => Some(chars_of(a.body.as_str())),
        None => None,
    };
    let mut k: usize = 0;
    while k < keywords.len()
        invariant
            body@ == q.body@,
            q.answer is Some <==> answer_body is Some,
            q.answer is Some ==> answer_body->0@ == q.answer->0.body@,
            k <= keywords@.len(),
            forall|t: int| 0 <= t < k ==> matches_keyword(q@, #[trigger] char_views(keywords@)[t]),
        decreases keywords@.len() - k,
    {
        let found = contains_chars(&body, &keywords[k]) || match &answer_body {
            Some(b) => contains_chars(b, &keywords[k]),
            None => false,
        };
        if !found {
            assert(!matches_keyword(q@, char_views(keywords@)[k as int]));
            return false;
        }
        k = k + 1;
    }
    true
}

proof fn lemma_answer_found(rows: Seq<AnswerView>, qid: i32, j: int)
    requires
        0 <= j < rows.len(),
        rows[j].question_id == qid,
        forall|k: int| 0 <= k < rows.len() && k != j ==> #[trigger] rows[k].question_id != qid,
    ensures
        answer_in(rows, qid) == Some(rows[j]),
    decreases rows.len(),
{
    if j < rows.len() - 1 {
        lemma_answer_found(rows.drop_last(), qid, j);
    }
}

proof fn lemma_answer_absent(rows: Seq<AnswerView>, qid: i32)
    requires
        forall|k: int| 0 <= k < rows.len() ==> #[trigger] rows[k].question_id != qid,
    ensures
        answer_in(rows, qid) is None,
    decreases rows.len(),
{
    if rows.len() > 0 {
        lemma_answer_absent(rows.drop_last(), qid);
    }
}

proof fn lemma_answer_in_member(rows: Seq<AnswerView>, qid: i32)
    ensures
        answer_in(rows, qid) is Some ==> exists|j: int|
            0 <= j < rows.len() && #[trigger] rows[j] == answer_in(rows, qid)->0
                && rows[j].question_id == qid,
    decreases rows.len(),
{
    if rows.len() > 0 {
        lemma_answer_in_member(rows.drop_last(), qid);
        if rows.last().question_id != qid && answer_in(rows, qid) is Some {
            let j = choose|j: int|
                0 <= j < rows.drop_last().len() && #[trigger] rows.drop_last()[j] == answer_in(
                    rows,
                    qid,
                )->0 && rows.drop_last()[j].question_id == qid;
            assert(rows[j] == rows.drop_last()[j]);
        }
    }
}

fn clone_answer(a: &Answer) -> (r: Answer)
    ensures
        r@ == a@,
{
    Answer { id: a.id, question_id: a.question_id, body: a.body.clone(), created_at: a.created_at }
}

impl Repository {
    /// The answer rows, in the order in which they were stored.
    pub closed spec fn answer_rows(&self) -> Seq<AnswerView> {
        self.answers@.map_values(|a: Answer| a@)
    }

    /// Every stored question in the order of its id, each with its answer attached.
    pub closed spec fn stored(&self) -> Seq<QuestionView> {
        Seq::new(
            self.questions@.len(),
            |i: int| self.questions@[i].with_answer(answer_in(self.answer_rows(), self.questions@[i].id)),
        )
    }

    /// The ids of the answered questions, in the order in which they were answered.
    pub closed spec fn answer_order(&self) -> Seq<i32> {
        self.answers@.map_values(|a: Answer| a.question_id)
    }

    /// The answered questions, the most recently answered first.
    pub open spec fn timeline(&self) -> Seq<QuestionView> {
        let order = self.answer_order();
        Seq::new(order.len(), |k: int| self.stored()[order[order.len() - 1 - k] - 1])
    }

    /// The question with id `id`; ids are given out as 1, 2, 3, ... in the order of storing.
    pub open spec fn lookup(&self, id: i32) -> Option<QuestionView> {
        if 1 <= id <= self.stored().len() {
            Some(self.stored()[id - 1])
        } else {
            None
        }
    }

    /// The repository is well formed: its rows are coherent, and so what the contracts speak of
    /// is too.
    pub open spec fn wf(&self) -> bool {
        self.rows_ok() && self.consistent()
    }

    /// What holds of every well-formed repository, said over the stored questions and the
    /// order of answering: question ids are 1, 2, 3, ... in storing order; an answer belongs to
    /// the question it is attached to; answer ids are 1, 2, 3, ... in answering order, so they
    /// differ; each question is answered at most once; and the timeline lists answered questions,
    /// each once, with answer times that never increase.
    pub open spec fn consistent(&self) -> bool {
        let s = self.stored();
        let o = self.answer_order();
        let t = self.timeline();
        &&& s.len() <= i32::MAX
        &&& o.len() <= i32::MAX
        &&& forall|i: int| 0 <= i < s.len() ==> #[trigger] s[i].id == i + 1
        &&& forall|i: int|
            0 <= i < s.len() && (#[trigger] s[i]).answer is Some ==> s[i].answer->0.question_id
                == s[i].id && 1 <= s[i].answer->0.id <= o.len() && o[s[i].answer->0.id - 1]
                == s[i].id
        &&& forall|i: int, j: int|
            #![trigger s[i], s[j]]
            0 <= i < s.len() && 0 <= j < s.len() && i != j && s[i].answer is Some
                && s[j].answer is Some ==> s[i].answer->0.id != s[j].answer->0.id
        &&& forall|k: int|
            0 <= k < o.len() ==> 1 <= #[trigger] o[k] <= s.len() && s[o[k] - 1].answer is Some
                && s[o[k] - 1].answer->0.id == k + 1
        &&& forall|k: int, l: int| #![trigger o[k], o[l]] 0 <= k < l < o.len() ==> o[k] != o[l]
        &&& forall|k: int|
            0 <= k < t.len() ==> (#[trigger] t[k]).answer is Some && self.lookup(t[k].id) == Some(
                t[k],
            )
        &&& forall|k: int, l: int|
            #![trigger t[k], t[l]]
            0 <= k < l < t.len() ==> t[k].id != t[l].id && t[k].answer->0.created_at
                >= t[l].answer->0.created_at
    }

    pub closed spec fn rows_ok(&self) -> bool {
        &&& self.questions@.len() <= i32::MAX
        &&& self.answers@.len() <= i32::MAX
        &&& forall|i: int|
            0 <= i < self.questions@.len() ==> #[trigger] self.questions@[i].id == i + 1
        &&& forall|j: int|
            0 <= j < self.answers@.len() ==> #[trigger] self.answers@[j].id == j + 1 && 1
                <= self.answers@[j].question_id <= self.questions@.len()
        &&& forall|j: int, k: int|
            #![trigger self.answers@[j], self.answers@[k]]
            0 <= j < k < self.answers@.len() ==> self.answers@[j].question_id
                != self.answers@[k].question_id && self.answers@[j].created_at
                <= self.answers@[k].created_at
    }

    #[verifier::spinoff_prover]
    proof fn lemma_consistent(&self)
        requires
            self.rows_ok(),
        ensures
            self.consistent(),
    {
        let s = self.stored();
        let o = self.answer_order();
        let t = self.timeline();
        let m = self.answers@.len() as int;
        let rows = self.answer_rows();
        assert forall|i: int| 0 <= i < s.len() && (#[trigger] s[i]).answer is Some implies s[i].answer->0.question_id
            == s[i].id && 1 <= s[i].answer->0.id <= o.len() && o[s[i].answer->0.id - 1]
            == s[i].id by {
            lemma_answer_in_member(rows, self.questions@[i].id);
            let j = choose|j: int|
                0 <= j < rows.len() && #[trigger] rows[j] == answer_in(rows, self.questions@[i].id)->0
                    && rows[j].question_id == self.questions@[i].id;
            assert(self.answers@[j].id == j + 1);
        }
        assert forall|i: int, j: int|
            #![trigger s[i], s[j]]
            0 <= i < s.len() && 0 <= j < s.len() && i != j && s[i].answer is Some
                && s[j].answer is Some implies s[i].answer->0.id != s[j].answer->0.id by {
            assert(self.questions@[i].id == i + 1);
            assert(self.questions@[j].id == j + 1);
        }
        assert forall|k: int| 0 <= k < o.len() implies 1 <= #[trigger] o[k] <= s.len()
            && s[o[k] - 1].answer is Some && s[o[k] - 1].answer->0.id == k + 1 by {
            self.lemma_stored_at(k);
            assert(self.answers@[k].id == k + 1);
        }
        assert forall|k: int, l: int| #![trigger o[k], o[l]] 0 <= k < l < o.len() implies o[k]
            != o[l] by {
            assert(self.answers@[k].question_id != self.answers@[l].question_id);
        }
        assert forall|k: int| 0 <= k < t.len() implies (#[trigger] t[k]).answer is Some
            && self.lookup(t[k].id) == Some(t[k]) by {
            self.lemma_stored_at(m - 1 - k);
            assert(self.answers@[m - 1 - k].id == m - k);
            assert(self.questions@[self.answers@[m - 1 - k].question_id - 1].id
                == self.answers@[m - 1 - k].question_id);
        }
        assert forall|k: int, l: int|
            #![trigger t[k], t[l]]
            0 <= k < l < t.len() implies t[k].id != t[l].id && t[k].answer->0.created_at
            >= t[l].answer->0.created_at by {
            self.lemma_stored_at(m - 1 - k);
            self.lemma_stored_at(m - 1 - l);
            assert(self.answers@[m - 1 - l].id == m - l);
            assert(self.answers@[m - 1 - k].id == m - k);
            assert(self.questions@[self.answers@[m - 1 - k].question_id - 1].id
                == self.answers@[m - 1 - k].question_id);
            assert(self.questions@[self.answers@[m - 1 - l].question_id - 1].id
                == self.answers@[m - 1 - l].question_id);
            assert(self.answers@[m - 1 - l].question_id != self.answers@[m - 1 - k].question_id);
        }
    }

    proof fn lemma_stored_at(&self, j: int)
        requires
            self.rows_ok(),
            0 <= j < self.answers@.len(),
        ensures
            self.stored()[self.answers@[j].question_id - 1] == self.questions@[self.answers@[j].question_id
                - 1].with_answer(Some(self.answers@[j]@)),
    {
        let rows = self.answer_rows();
        let qid = self.answers@[j].question_id;
        assert forall|k: int| 0 <= k < rows.len() && k != j implies #[trigger] rows[k].question_id
            != qid by {
            if k < j {
                assert(self.answers@[k].question_id != self.answers@[j].question_id);
            } else {
                assert(self.answers@[j].question_id != self.answers@[k].question_id);
            }
        }
        lemma_answer_found(rows, qid, j);
    }

    #[verifier::spinoff_prover]
    proof fn lemma_wf_rows_kept(a: Repository, b: Repository)
        requires
            a.rows_ok(),
            b.answers@ == a.answers@,
            b.questions@.len() == a.questions@.len(),
            forall|i: int|
                0 <= i < a.questions@.len() ==> #[trigger] b.questions@[i].id
                    == a.questions@[i].id,
        ensures
            b.rows_ok(),
    {
        assert forall|i: int| 0 <= i < b.questions@.len() implies #[trigger] b.questions@[i].id
            == i + 1 by {
            assert(a.questions@[i].id == i + 1);
        }
        assert forall|j: int| 0 <= j < b.answers@.len() implies #[trigger] b.answers@[j].id == j + 1
            && 1 <= b.answers@[j].question_id <= b.questions@.len() by {
            assert(a.answers@[j].id == j + 1);
        }
        assert forall|j: int, k: int|
            #![trigger b.answers@[j], b.answers@[k]]
            0 <= j < k < b.answers@.len() implies b.answers@[j].question_id
            != b.answers@[k].question_id && b.answers@[j].created_at <= b.answers@[k].created_at by {
            assert(a.answers@[j].question_id != a.answers@[k].question_id);
        }
    }

    #[verifier::spinoff_prover]
    proof fn lemma_wf_question_added(a: Repository, b: Repository)
        requires
            a.rows_ok(),
            a.questions@.len() < i32::MAX,
            b.answers@ == a.answers@,
            b.questions@.len() == a.questions@.len() + 1,
            forall|i: int|
                0 <= i < a.questions@.len() ==> #[trigger] b.questions@[i] == a.questions@[i],
            b.questions@[a.questions@.len() as int].id == a.questions@.len() + 1,
        ensures
            b.rows_ok(),
    {
        assert forall|i: int| 0 <= i < b.questions@.len() implies #[trigger] b.questions@[i].id
            == i + 1 by {
            if i < a.questions@.len() {
                assert(b.questions@[i] == a.questions@[i]);
            }
        }
        assert forall|j: int| 0 <= j < b.answers@.len() implies #[trigger] b.answers@[j].id == j + 1
            && 1 <= b.answers@[j].question_id <= b.questions@.len() by {
            assert(a.answers@[j].id == j + 1);
        }
        assert forall|j: int, k: int|
            #![trigger b.answers@[j], b.answers@[k]]
            0 <= j < k < b.answers@.len() implies b.answers@[j].question_id
            != b.answers@[k].question_id && b.answers@[j].created_at <= b.answers@[k].created_at by {
            assert(a.answers@[j].question_id != a.answers@[k].question_id);
        }
    }

    #[verifier::spinoff_prover]
    proof fn lemma_wf_answer_added(a: Repository, b: Repository, x: Answer)
        requires
            a.rows_ok(),
            b.questions@ == a.questions@,
            b.answers@ == a.answers@.push(x),
            x.id == a.answers@.len() + 1,
            1 <= x.question_id <= a.questions@.len(),
            forall|j: int|
                0 <= j < a.answers@.len() ==> #[trigger] a.answers@[j].question_id
                    != x.question_id && a.answers@[j].created_at <= x.created_at,
        ensures
            b.rows_ok(),
    {
        assert forall|j: int| 0 <= j < b.answers@.len() implies #[trigger] b.answers@[j].id == j + 1
            && 1 <= b.answers@[j].question_id <= b.questions@.len() by {
            if j < a.answers@.len() {
                assert(b.answers@[j] == a.answers@[j]);
            }
        }
        assert forall|j: int, k: int|
            #![trigger b.answers@[j], b.answers@[k]]
            0 <= j < k < b.answers@.len() implies b.answers@[j].question_id
            != b.answers@[k].question_id && b.answers@[j].created_at <= b.answers@[k].created_at by {
            assert(b.answers@[j] == a.answers@[j]);
            if k < a.answers@.len() {
                assert(a.answers@[j].question_id != a.answers@[k].question_id);
            }
        }
    }

    /// The sizes fit the ids, and every question on the timeline has its answer.
    pub proof fn lemma_timeline(&self)
        requires
            self.wf(),
        ensures
            self.stored().len() <= i32::MAX,
            self.answer_order().len() <= i32::MAX,
            self.timeline().len() == self.answer_order().len(),
            forall|k: int|
                0 <= k < self.timeline().len() ==> (#[trigger] self.timeline()[k]).answer is Some,
    {
        assert forall|k: int| 0 <= k < self.timeline().len() implies (
        #[trigger] self.timeline()[k]).answer is Some by {
            self.lemma_stored_at(self.answers@.len() - 1 - k);
        }
    }

    /// Answers go to distinct questions, so while one question waits for its answer there are
    /// fewer answers than questions.
    proof fn lemma_fewer_answers(&self, qid: i32)
        requires
            self.wf(),
            1 <= qid <= self.questions@.len(),
            forall|j: int|
                0 <= j < self.answers@.len() ==> #[trigger] self.answers@[j].question_id != qid,
        ensures
            self.answers@.len() < self.questions@.len(),
    {
        broadcast use vstd::seq_lib::group_seq_properties;

        let n = self.questions@.len() as int;
        let ids = self.answers@.map_values(|a: Answer| a.question_id as int);
        assert forall|j: int, k: int|
            0 <= j < ids.len() && 0 <= k < ids.len() && j != k implies ids[j] != ids[k] by {
            if j < k {
                assert(self.answers@[j].question_id != self.answers@[k].question_id);
            } else {
                assert(self.answers@[k].question_id != self.answers@[j].question_id);
            }
        }
        assert(ids.no_duplicates());
        ids.unique_seq_to_set();
        let range = vstd::set_lib::set_int_range(1, n + 1).remove(qid as int);
        vstd::set_lib::lemma_int_range(1, n + 1);
        assert forall|x: int| ids.to_set().contains(x) implies range.contains(x) by {
            assert(ids.contains(x));
            let j = choose|j: int| 0 <= j < ids.len() && ids[j] == x;
            assert(self.answers@[j].question_id != qid);
            assert(self.answers@[j].id == j + 1);
            assert(ids[j] == self.answers@[j].question_id as int);
            assert(vstd::set_lib::set_int_range(1, n + 1).contains(x));
        }
        assert(ids.to_set().subset_of(range));
        vstd::set_lib::lemma_len_subset(ids.to_set(), range);
    }

    /// An empty repository.
    pub fn new() -> (r: Repository)
        ensures
            r.wf(),
            r.stored() == Seq::<QuestionView>::empty(),
            r.answer_order() == Seq::<i32>::empty(),
    {
        let r = Repository { questions: Vec::new(), answers: Vec::new() };
        assert(r.stored() =~= Seq::<QuestionView>::empty());
        assert(r.answer_order() =~= Seq::<i32>::empty());
        proof {
            r.lemma_consistent();
        }
        r
    }

    /// The position among the answer rows of the answer to question `qid`.
    fn answer_position(&self, qid: i32) -> (r: Option<usize>)
        requires
            self.wf(),
        ensures
            match r {
                Some(j) => j < self.answers@.len() && self.answers@[j as int].question_id == qid,
                None => forall|j: int|
                    0 <= j < self.answers@.len() ==> #[trigger] self.answers@[j].question_id
                        != qid,
            },
    {
        let mut j: usize = 0;
        while j < self.answers.len()
            invariant
                j <= self.answers@.len(),
                forall|k: int| 0 <= k < j ==> #[trigger] self.answers@[k].question_id != qid,
            decreases self.answers@.len() - j,
        {
            if self.answers[j].question_id == qid {
                return Some(j);
            }
            j = j + 1;
        }
        None
    }

    /// The question row at position `i`, with `answer` attached.
    fn question_with(&self, i: usize, answer: Option<Answer>) -> (r: Question)
        requires
            i < self.questions@.len(),
        ensures
            r@ == self.questions@[i as int].with_answer(answer_view(answer)),
    {
        let row = &self.questions[i];
        Question {
            id: row.id,
            body: row.body.clone(),
            ip_address: row.ip_address.clone(),
            created_at: row.created_at,
            hidden: row.hidden,
            answer,
        }
    }

    /// The stored question at position `i`, with its answer.
    fn question_at(&self, i: usize) -> (r: Question)
        requires
            self.wf(),
            i < self.questions@.len(),
        ensures
            r@ == self.stored()[i as int],
    {
        let qid = self.questions[i].id;
        match self.answer_position(qid) {
            Some(j) => {
                proof {
                    self.lemma_stored_at(j as int);
                }
                self.question_with(i, Some(clone_answer(&self.answers[j])))
            },
            None => {
                proof {
                    lemma_answer_absent(self.answer_rows(), qid);
                }
                self.question_with(i, None)
            },
        }
    }

    /// Stores a new question, not hidden and unanswered, under the next id; a blank body is
    /// refused and leaves the repository as it was. The question is timed by the clock; when the
    /// clock cannot be read, it takes the time of the latest stored question (0 for the first).
    /// Only a question that is stored needs a free id.
    pub fn store_question(&mut self, body: String, ip_address: String) -> (r: Result<
        Question,
        StoreQuestionError,
    >)
        requires
            old(self).wf(),
            !is_blank(body@) ==> old(self).stored().len() < i32::MAX,
        ensures
            final(self).wf(),
            is_blank(body@) ==> (r matches Err(StoreQuestionError::BlankBody)) && *final(self)
                == *old(self),
            !is_blank(body@) ==> r is Ok && r->Ok_0@ == (QuestionView {
                id: (old(self).stored().len() + 1) as i32,
                body: body@,
                ip_address: ip_address@,
                created_at: r->Ok_0.created_at,
                hidden: false,
                answer: None,
            }) && final(self).stored() == old(self).stored().push(r->Ok_0@)
                && final(self).answer_order() == old(self).answer_order(),
    {
        if is_blank_text(body.as_str()) {
            return Err(StoreQuestionError::BlankBody);
        }
        let created_at = match crate::clock::now_timestamp() {
            Some(now) => now,
            None => {
                let n = self.questions.len();
                if n > 0 {
                    self.questions[n - 1].created_at
                } else {
                    0
                }
            },
        };
        let id = (self.questions.len() + 1) as i32;
        let q = Question {
            id,
            body: body.clone(),
            ip_address: ip_address.clone(),
            created_at,
            hidden: false,
            answer: None,
        };
        let ghost before = *self;
        self.questions.push(QuestionRow { id, body, ip_address, created_at, hidden: false });
        proof {
            assert(self.answers@ == before.answers@);
            lemma_answer_absent(self.answer_rows(), id);
            assert(self.stored() =~= before.stored().push(q@));
            assert(self.answer_order() =~= before.answer_order());
            Self::lemma_wf_question_added(before, *self);
            self.lemma_consistent();
        }
        Ok(q)
    }

    /// The question with id `id`, with its answer if it has one.
    pub fn find_question(&self, id: i32) -> (r: Option<Question>)
        requires
            self.wf(),
        ensures
            option_view(r) == self.lookup(id),
            r is Some ==> r->0.id == id,
    {
        if 1 <= id && id as usize <= self.questions.len() {
            Some(self.question_at((id - 1) as usize))
        } else {
            None
        }
    }

    /// Sets the hidden flag of question `id` to `hidden`; nothing else changes, its answer
    /// included. An unknown id changes nothing.
    fn set_hidden(&mut self, id: i32, hidden: bool)
        requires
            old(self).wf(),
        ensures
            final(self).wf(),
            final(self).answer_order() == old(self).answer_order(),
            final(self).stored() == match old(self).lookup(id) {
                Some(q) => old(self).stored().update(id - 1, QuestionView { hidden, ..q }),
                None => old(self).stored(),
            },
    {
        if 1 <= id && id as usize <= self.questions.len() {
            let i = (id - 1) as usize;
            let row = QuestionRow {
                id: self.questions[i].id,
                body: self.questions[i].body.clone(),
                ip_address: self.questions[i].ip_address.clone(),
                created_at: self.questions[i].created_at,
                hidden,
            };
            let ghost before = *self;
            self.questions.set(i, row);
            proof {
                assert forall|k: int| 0 <= k < self.questions@.len() implies #[trigger] self.questions@[k].id
                    == before.questions@[k].id by {}
                Self::lemma_wf_rows_kept(before, *self);
                self.lemma_consistent();
                assert(self.answer_order() =~= before.answer_order());
                assert(self.stored() =~= before.stored().update(
                    id - 1,
                    QuestionView { hidden, ..before.stored()[id - 1] },
                ));
            }
        }
    }

    /// Hides question `id` from the moderation queue; it stays stored and can still be looked
    /// up. An unknown id changes nothing.
    pub fn hide_question(&mut self, id: i32)
        requires
            old(self).wf(),
        ensures
            final(self).wf(),
            final(self).answer_order() == old(self).answer_order(),
            final(self).stored() == match old(self).lookup(id) {
                Some(q) => old(self).stored().update(id - 1, QuestionView { hidden: true, ..q }),
                None => old(self).stored(),
            },
    {
        self.set_hidden(id, true);
    }

    /// Writes the moderation field (the hidden flag) of `question` to the stored question with
    /// the same id; its body, address, time and answer stay. An unknown id changes nothing.
    pub fn update_question(&mut self, question: Question)
        requires
            old(self).wf(),
        ensures
            final(self).wf(),
            final(self).answer_order() == old(self).answer_order(),
            final(self).stored() == match old(self).lookup(question.id) {
                Some(q) => old(self).stored().update(
                    question.id - 1,
                    QuestionView { hidden: question.hidden, ..q },
                ),
                None => old(self).stored(),
            },
    {
        self.set_hidden(question.id, question.hidden);
    }

    /// Attaches a new answer to question `question_id` and returns the question with it. A blank
    /// body, an unknown question and a question that already has its answer are refused and
    /// leave the repository as it was. The answer is timed by the clock, but never earlier than
    /// the latest stored answer, which it also takes when the clock cannot be read (0 for the
    /// first).
    pub fn store_answer(&mut self, question_id: i32, body: String) -> (r: Result<
        Question,
        StoreAnswerError,
    >)
        requires
            old(self).wf(),
        ensures
            final(self).wf(),
            is_blank(body@) ==> (r matches Err(StoreAnswerError::BlankBody)) && *final(self)
                == *old(self),
            !is_blank(body@) && old(self).lookup(question_id) is None ==> (r matches Err(
                StoreAnswerError::NotFound,
            )) && *final(self) == *old(self),
            !is_blank(body@) && old(self).lookup(question_id) is Some && old(self).lookup(
                question_id,
            )->0.answer is Some ==> (r matches Err(StoreAnswerError::AlreadyAnswered))
                && *final(self) == *old(self),
            !is_blank(body@) && old(self).lookup(question_id) is Some && old(self).lookup(
                question_id,
            )->0.answer is None ==> r is Ok && r->Ok_0@ == (QuestionView {
                answer: Some(
                    AnswerView {
                        id: (old(self).answer_order().len() + 1) as i32,
                        question_id,
                        body: body@,
                        created_at: r->Ok_0.answer->0.created_at,
                    },
                ),
                ..old(self).lookup(question_id)->0
            }) && final(self).stored() == old(self).stored().update(question_id - 1, r->Ok_0@)
                && final(self).answer_order() == old(self).answer_order().push(question_id),
    {
        if is_blank_text(body.as_str()) {
            return Err(StoreAnswerError::BlankBody);
        }
        if !(1 <= question_id && question_id as usize <= self.questions.len()) {
            return Err(StoreAnswerError::NotFound);
        }
        if let Some(j) = self.answer_position(question_id) {
            proof {
                self.lemma_stored_at(j as int);
            }
            return Err(StoreAnswerError::AlreadyAnswered);
        }
        proof {
            lemma_answer_absent(self.answer_rows(), question_id);
            self.lemma_fewer_answers(question_id);
        }
        let n = self.answers.len();
        let created_at = match crate::clock::now_timestamp() {
            Some(now) => if n > 0 && self.answers[n - 1].created_at > now {
                self.answers[n - 1].created_at
            } else {
                now
            },
            None => if n > 0 {
                self.answers[n - 1].created_at
            } else {
                0
            },
        };
        proof {
            assert forall|j: int| 0 <= j < n implies #[trigger] self.answers@[j].created_at
                <= created_at by {
                if j < n - 1 {
                    assert(self.answers@[j].created_at <= self.answers@[n - 1].created_at);
                }
            }
        }
        let answer = Answer {
            id: (self.answers.len() + 1) as i32,
            question_id,
            body,
            created_at,
        };
        let i = (question_id - 1) as usize;
        let q = self.question_with(i, Some(clone_answer(&answer)));
        let ghost before = *self;
        proof {
            assert(before.answers@.len() < i32::MAX);
        }
        self.answers.push(answer);
        proof {
            let rows = self.answer_rows();
            let m = before.answers@.len() as int;
            assert(rows.drop_last() =~= before.answer_rows());
            assert forall|k: int| 0 <= k < rows.len() && k != m implies #[trigger] rows[k].question_id
                != question_id by {}
            lemma_answer_found(rows, question_id, m);
            assert forall|i2: int| 0 <= i2 < self.questions@.len() && i2 != i implies answer_in(
                rows,
                #[trigger] self.questions@[i2].id,
            ) == answer_in(before.answer_rows(), self.questions@[i2].id) by {}
            assert(self.stored() =~= before.stored().update(question_id - 1, q@));
            assert(self.answer_order() =~= before.answer_order().push(question_id));
            Self::lemma_wf_answer_added(before, *self, self.answers@[m]);
            self.lemma_consistent();
        }
        Ok(q)
    }

    /// The question answered at position `j` of the answer rows, with that answer.
    fn answered_at(&self, j: usize) -> (r: Question)
        requires
            self.wf(),
            j < self.answers@.len(),
        ensures
            r@ == self.stored()[self.answers@[j as int].question_id - 1],
            r@.id == self.answers@[j as int].question_id,
            1 <= r@.id <= self.stored().len(),
            r@.answer == Some(self.answers@[j as int]@),
            r@.answer->0.id == j + 1,
    {
        let a = &self.answers[j];
        proof {
            self.lemma_stored_at(j as int);
        }
        self.question_with((a.question_id - 1) as usize, Some(clone_answer(a)))
    }

    /// Every stored question, in the order of its id, each with its answer.
    pub fn all_questions(&self) -> (r: Vec<Question>)
        requires
            self.wf(),
        ensures
            views(r@) == self.stored(),
    {
        let mut r: Vec<Question> = Vec::new();
        let mut i: usize = 0;
        while i < self.questions.len()
            invariant
                self.wf(),
                i <= self.questions@.len(),
                views(r@) == self.stored().subrange(0, i as int),
            decreases self.questions@.len() - i,
        {
            let q = self.question_at(i);
            let ghost prev = r@;
            r.push(q);
            assert(views(r@) =~= views(prev).push(q@));
            assert(views(r@) =~= self.stored().subrange(0, i + 1));
            i = i + 1;
        }
        assert(self.stored().subrange(0, i as int) =~= self.stored());
        r
    }

    /// One page of the timeline: the answered questions, the most recently answered first,
    /// from position `offset` on, at most `count` of them.
    pub fn answers(&self, offset: i64, count: i64) -> (r: Vec<Question>)
        requires
            self.wf(),
            offset >= 0,
            count >= 0,
        ensures
            views(r@) == page(self.timeline(), offset as int, count as int),
            forall|j: int|
                0 <= j < r@.len() ==> (#[trigger] r@[j])@.answer is Some && self.lookup(r@[j].id)
                    == Some(r@[j]@),
            forall|j: int, l: int|
                #![trigger r@[j], r@[l]]
                0 <= j < l < r@.len() ==> r@[j].id != r@[l].id && r@[j]@.answer->0.created_at
                    >= r@[l]@.answer->0.created_at,
    {
        let m = self.answers.len();
        let lo: usize = if (offset as u64) < m as u64 {
            offset as usize
        } else {
            m
        };
        let hi: usize = if (count as u64) < (m - lo) as u64 {
            lo + count as usize
        } else {
            m
        };
        let mut r: Vec<Question> = Vec::new();
        let mut k: usize = lo;
        while k < hi
            invariant
                self.wf(),
                lo <= k <= hi <= m,
                m == self.answers@.len(),
                views(r@) == self.timeline().subrange(lo as int, k as int),
            decreases hi - k,
        {
            let q = self.answered_at(m - 1 - k);
            let ghost prev = r@;
            r.push(q);
            assert(views(r@) =~= views(prev).push(q@));
            assert(views(r@) =~= self.timeline().subrange(lo as int, k + 1));
            k = k + 1;
        }
        proof {
            let t = self.timeline();
            assert forall|j: int| 0 <= j < r@.len() implies (#[trigger] r@[j])@.answer is Some
                && self.lookup(r@[j].id) == Some(r@[j]@) by {
                assert(views(r@)[j] == t[lo + j]);
            }
            assert forall|j: int, l: int|
                #![trigger r@[j], r@[l]]
                0 <= j < l < r@.len() implies r@[j].id != r@[l].id && r@[j]@.answer->0.created_at
                >= r@[l]@.answer->0.created_at by {
                assert(views(r@)[j] == t[lo + j]);
                assert(views(r@)[l] == t[lo + l]);
            }
        }
        r
    }

    /// The questions that wait for an answer and are not hidden, in the order of their ids.
    pub fn not_answered_questions(&self) -> (r: Vec<Question>)
        requires
            self.wf(),
        ensures
            views(r@) == moderation_queue(self.stored()),
            forall|j: int|
                0 <= j < r@.len() ==> (#[trigger] r@[j])@.answer is None && !r@[j].hidden
                    && self.lookup(r@[j].id) == Some(r@[j]@),
            forall|j: int, l: int| #![trigger r@[j], r@[l]] 0 <= j < l < r@.len() ==> r@[j].id < r@[l].id,
    {
        let mut r: Vec<Question> = Vec::new();
        let mut i: usize = 0;
        while i < self.questions.len()
            invariant
                self.wf(),
                i <= self.questions@.len(),
                views(r@) == moderation_queue(self.stored().subrange(0, i as int)),
                forall|j: int|
                    0 <= j < r@.len() ==> (#[trigger] r@[j])@.answer is None && !r@[j].hidden
                        && 1 <= r@[j].id <= i && self.lookup(r@[j].id) == Some(r@[j]@),
                forall|j: int, l: int| #![trigger r@[j], r@[l]] 0 <= j < l < r@.len() ==> r@[j].id < r@[l].id,
            decreases self.questions@.len() - i,
        {
            let ghost st = self.stored();
            assert(st.subrange(0, i + 1) =~= st.subrange(0, i as int).push(st[i as int]));
            proof {
                st.subrange(0, i as int).lemma_filter_push(st[i as int], awaits_answer());
            }
            if !self.questions[i].hidden {
                let qid = self.questions[i].id;
                match self.answer_position(qid) {
                    Some(j) => {
                        proof {
                            self.lemma_stored_at(j as int);
                        }
                    },
                    None => {
                        proof {
                            lemma_answer_absent(self.answer_rows(), qid);
                        }
                        let q = self.question_with(i, None);
                        let ghost prev = r@;
                        r.push(q);
                        assert(views(r@) =~= views(prev).push(q@));
                        assert(r@[r@.len() - 1] == q);
                        assert(st[i as int].id == i + 1);
                        assert forall|j: int| 0 <= j < r@.len() - 1 implies #[trigger] r@[j] == prev[j] by {}
                    },
                }
            }
            i = i + 1;
        }
        assert(self.stored().subrange(0, i as int) =~= self.stored());
        r
    }

    /// The answered questions that every keyword of `keywords_string` finds, the most recently
    /// answered first. A keyword is found in a question when it occurs, case-sensitively, in the
    /// question's body or in its answer's body.
    pub fn search_answers(&self, keywords_string: String) -> (r: Vec<Question>)
        requires
            self.wf(),
        ensures
            views(r@) == search_results(self.timeline(), keywords_of(keywords_string@)),
            forall|j: int|
                0 <= j < r@.len() ==> (#[trigger] r@[j])@.answer is Some && self.lookup(r@[j].id)
                    == Some(r@[j]@) && matches_all(r@[j]@, keywords_of(keywords_string@)),
            forall|j: int, l: int|
                #![trigger r@[j], r@[l]]
                0 <= j < l < r@.len() ==> r@[j].id != r@[l].id && r@[j]@.answer->0.created_at
                    >= r@[l]@.answer->0.created_at,
            forall|k: int|
                0 <= k < self.timeline().len() && matches_all(
                    #[trigger] self.timeline()[k],
                    keywords_of(keywords_string@),
                ) ==> views(r@).contains(self.timeline()[k]),
    {
        let keywords = split_keywords(keywords_string.as_str());
        let ghost kw = keywords_of(keywords_string@);
        let m = self.answers.len();
        let mut r: Vec<Question> = Vec::new();
        let ghost mut pos: Seq<int> = Seq::empty();
        let mut k: usize = 0;
        proof {
            self.lemma_timeline();
        }
        while k < m
            invariant
                self.wf(),
                k <= m,
                m == self.answers@.len(),
                char_views(keywords@) == kw,
                views(r@) == search_results(self.timeline().subrange(0, k as int), kw),
                pos.len() == r@.len(),
                forall|j: int|
                    0 <= j < r@.len() ==> 0 <= #[trigger] pos[j] < k && r@[j]@ == self.timeline()[pos[j]]
                        && matches_all(r@[j]@, kw),
                forall|j: int, l: int| #![trigger pos[j], pos[l]] 0 <= j < l < pos.len() ==> pos[j] < pos[l],
            decreases m - k,
        {
            let ghost tl = self.timeline();
            assert(tl.subrange(0, k + 1) =~= tl.subrange(0, k as int).push(tl[k as int]));
            proof {
                tl.subrange(0, k as int).lemma_filter_push(tl[k as int], found_by(kw));
            }
            let q = self.answered_at(m - 1 - k);
            if matches_keywords(&q, &keywords) {
                let ghost prev = r@;
                let ghost prev_pos = pos;
                r.push(q);
                proof {
                    pos = pos.push(k as int);
                    assert forall|j: int| 0 <= j < r@.len() - 1 implies #[trigger] r@[j] == prev[j] && pos[j] == prev_pos[j] by {}
                }
                assert(views(r@) =~= views(prev).push(q@));
            }
            k = k + 1;
        }
        assert(self.timeline().subrange(0, m as int) =~= self.timeline());
        proof {
            let t = self.timeline();
            assert forall|j: int, l: int|
                #![trigger r@[j], r@[l]]
                0 <= j < l < r@.len() implies r@[j].id != r@[l].id && r@[j]@.answer->0.created_at
                >= r@[l]@.answer->0.created_at by {
                assert(pos[j] < pos[l]);
                assert(t[pos[j]] == r@[j]@ && t[pos[l]] == r@[l]@);
            }
            assert forall|j: int| 0 <= j < r@.len() implies (#[trigger] r@[j])@.answer is Some
                && self.lookup(r@[j].id) == Some(r@[j]@) && matches_all(r@[j]@, kw) by {
                assert(t[pos[j]] == r@[j]@);
            }
            assert forall|k: int|
                0 <= k < t.len() && matches_all(#[trigger] t[k], kw) implies views(r@).contains(t[k]) by {
                t.lemma_filter_contains(found_by(kw), k);
            }
        }
        r
    }

    /// The question that holds the answer with id `answer_id`.
    pub fn find_answer(&self, answer_id: i32) -> (r: Option<Question>)
        requires
            self.wf(),
        ensures
            match r {
                Some(q) => q@.answer is Some && q@.answer->0.id == answer_id
                    && q@.answer->0.question_id == q@.id && self.lookup(q@.id) == Some(q@),
                None => forall|i: int|
                    0 <= i < self.stored().len() ==> #[trigger] self.stored()[i].answer is None
                        || self.stored()[i].answer->0.id != answer_id,
            },
    {
        if 1 <= answer_id && answer_id as usize <= self.answers.len() {
            let q = self.answered_at((answer_id - 1) as usize);
            Some(q)
        } else {
            proof {
                assert forall|i: int| 0 <= i < self.stored().len() implies #[trigger] self.stored()[i].answer is None
                    || self.stored()[i].answer->0.id != answer_id by {
                    lemma_answer_in_member(self.answer_rows(), self.questions@[i].id);
                }
            }
            None
        }
    }

    /// The question with id `question_id` if it has been answered.
    pub fn find_answer_by_question_id(&self, question_id: i32) -> (r: Option<Question>)
        requires
            self.wf(),
        ensures
            option_view(r) == (if self.lookup(question_id) is Some && self.lookup(
                question_id,
            )->0.answer is Some {
                self.lookup(question_id)
            } else {
                None
            }),
            r is Some ==> r->0.id == question_id && r->0.answer is Some,
    {
        match self.find_question(question_id) {
            Some(q) => if q.answer.is_some() {
                Some(q)
            } else {
                None
            },
            None => None,
        }
    }

    /// The answered question with the smallest id above `id`.
    pub fn find_next_answer(&self, id: i32) -> (r: Option<Question>)
        requires
            self.wf(),
        ensures
            match r {
                Some(q) => q@.answer is Some && id < q@.id && self.lookup(q@.id) == Some(q@)
                    && forall|i: int|
                    0 <= i < self.stored().len() && id < #[trigger] self.stored()[i].id < q@.id
                        ==> self.stored()[i].answer is None,
                None => forall|i: int|
                    0 <= i < self.stored().len() && id < #[trigger] self.stored()[i].id
                        ==> self.stored()[i].answer is None,
            },
    {
        let mut best: Option<usize> = None;
        let mut j: usize = 0;
        while j < self.answers.len()
            invariant
                self.wf(),
                j <= self.answers@.len(),
                match best {
                    Some(b) => b < j && id < self.answers@[b as int].question_id && forall|t: int|
                        0 <= t < j && id < #[trigger] self.answers@[t].question_id
                            ==> self.answers@[b as int].question_id
                            <= self.answers@[t].question_id,
                    None => forall|t: int|
                        0 <= t < j ==> #[trigger] self.answers@[t].question_id <= id,
                },
            decreases self.answers@.len() - j,
        {
            let qid = self.answers[j].question_id;
            if id < qid {
                match best {
                    Some(b) => {
                        if qid < self.answers[b].question_id {
                            best = Some(j);
                        }
                    },
                    None => {
                        best = Some(j);
                    },
                }
            }
            j = j + 1;
        }
        proof {
            assert forall|i: int|
                0 <= i < self.stored().len() && id < #[trigger] self.stored()[i].id && (match best {
                    Some(b) => self.stored()[i].id < self.answers@[b as int].question_id,
                    None => true,
                }) implies self.stored()[i].answer is None by {
                assert(self.questions@[i].id == i + 1);
                assert forall|t: int| 0 <= t < self.answer_rows().len() implies #[trigger] self.answer_rows()[t].question_id
                    != self.questions@[i].id by {
                    assert(self.answer_rows()[t].question_id == self.answers@[t].question_id);
                }
                lemma_answer_absent(self.answer_rows(), self.questions@[i].id);
            }
        }
        match best {
            Some(b) => {
                let q = self.answered_at(b);
                Some(q)
            },
            None => None,
        }
    }

    /// The answered question with the largest id below `id`.
    pub fn find_prev_answer(&self, id: i32) -> (r: Option<Question>)
        requires
            self.wf(),
        ensures
            match r {
                Some(q) => q@.answer is Some && q@.id < id && self.lookup(q@.id) == Some(q@)
                    && forall|i: int|
                    0 <= i < self.stored().len() && q@.id < #[trigger] self.stored()[i].id < id
                        ==> self.stored()[i].answer is None,
                None => forall|i: int|
                    0 <= i < self.stored().len() && #[trigger] self.stored()[i].id < id
                        ==> self.stored()[i].answer is None,
            },
    {
        let mut best: Option<usize> = None;
        let mut j: usize = 0;
        while j < self.answers.len()
            invariant
                self.wf(),
                j <= self.answers@.len(),
                match best {
                    Some(b) => b < j && self.answers@[b as int].question_id < id && forall|t: int|
                        0 <= t < j && #[trigger] self.answers@[t].question_id < id
                            ==> self.answers@[t].question_id
                            <= self.answers@[b as int].question_id,
                    None => forall|t: int|
                        0 <= t < j ==> id <= #[trigger] self.answers@[t].question_id,
                },
            decreases self.answers@.len() - j,
        {
            let qid = self.answers[j].question_id;
            if qid < id {
                match best {
                    Some(b) => {
                        if self.answers[b].question_id < qid {
                            best = Some(j);
                        }
                    },
                    None => {
                        best = Some(j);
                    },
                }
            }
            j = j + 1;
        }
        proof {
            assert forall|i: int|
                0 <= i < self.stored().len() && #[trigger] self.stored()[i].id < id && (match best {
                    Some(b) => self.answers@[b as int].question_id < self.stored()[i].id,
                    None => true,
                }) implies self.stored()[i].answer is None by {
                assert(self.questions@[i].id == i + 1);
                assert forall|t: int| 0 <= t < self.answer_rows().len() implies #[trigger] self.answer_rows()[t].question_id
                    != self.questions@[i].id by {
                    assert(self.answer_rows()[t].question_id == self.answers@[t].question_id);
                }
                lemma_answer_absent(self.answer_rows(), self.questions@[i].id);
            }
        }
        match best {
            Some(b) => {
                let q = self.answered_at(b);
                Some(q)
            },
            None => None,
        }
    }
}

/// The outcome of checking a question or an answer before it is stored.
#[derive(Debug, PartialEq, Eq, Structural)]
pub enum Validation<Reason> {
    Valid,
    Invalid(Reason),
}

#[derive(Debug, PartialEq, Eq, Structural)]
pub enum QuestionInvalidReason {
    BlankBody,
}

#[derive(Debug, PartialEq, Eq, Structural)]
pub enum AnswerInvalidReason {
    BlankBody,
}

impl Question {
    /// A question is invalid when its body is blank.
    pub fn validate(&self) -> (r: Validation<QuestionInvalidReason>)
        ensures
            is_blank(self.body@) ==> (r matches Validation::Invalid(QuestionInvalidReason::BlankBody)),
            !is_blank(self.body@) ==> (r matches Validation::Valid),
    {
        if is_blank_text(self.body.as_str()) {
            Validation::Invalid(QuestionInvalidReason::BlankBody)
        } else {
            Validation::Valid
        }
    }
}

impl Answer {
    /// An answer is invalid when its body is blank, whatever its question.
    pub fn validate(&self) -> (r: Validation<AnswerInvalidReason>)
        ensures
            is_blank(self.body@) ==> (r matches Validation::Invalid(AnswerInvalidReason::BlankBody)),
            !is_blank(self.body@) ==> (r matches Validation::Valid),
    {
        if is_blank_text(self.body.as_str()) {
            Validation::Invalid(AnswerInvalidReason::BlankBody)
        } else {
            Validation::Valid
        }
    }
}

/// After an answer with body `body` has been attached to question `question_id` (the change
/// that `store_answer` makes when it succeeds, `r` being what it returns), looking the question
/// up gives it with that answer.
pub proof fn law_stored_answer_is_found(
    before: Repository,
    after: Repository,
    question_id: i32,
    body: Seq<char>,
    r: QuestionView,
)
    requires
        before.lookup(question_id) is Some,
        r.answer is Some,
        r.answer->0.body == body,
        after.stored() == before.stored().update(question_id - 1, r),
    ensures
        after.lookup(question_id) == Some(r),
        after.lookup(question_id)->0.answer->0.body == body,
{
}

/// Hiding a question (the change that `hide_question` makes) keeps it where a lookup finds it,
/// now marked hidden, and takes it out of the moderation queue.
pub proof fn law_hidden_question_is_still_found(before: Repository, after: Repository, id: i32)
    requires
        before.lookup(id) is Some,
        after.stored() == before.stored().update(
            id - 1,
            QuestionView { hidden: true, ..before.lookup(id)->0 },
        ),
    ensures
        after.lookup(id) is Some,
        after.lookup(id)->0.hidden,
        after.lookup(id)->0.id == before.lookup(id)->0.id,
        after.lookup(id)->0.body == before.lookup(id)->0.body,
        after.lookup(id)->0.answer == before.lookup(id)->0.answer,
        !moderation_queue(after.stored()).contains(after.lookup(id)->0),
{
    broadcast use Seq::lemma_filter_contains_rev;

    let q = after.lookup(id)->0;
    if moderation_queue(after.stored()).contains(q) {
        after.stored().lemma_filter_pred(awaits_answer(), choose|k: int|
            0 <= k < moderation_queue(after.stored()).len() && moderation_queue(after.stored())[k]
                == q);
    }
}

/// The answered question with the smallest id has no previous one: whatever
/// `find_prev_answer` may return for its id (`r`, held to that function's contract), it is
/// nothing.
pub proof fn law_oldest_has_no_previous(repo: Repository, oldest: QuestionView, r: Option<QuestionView>)
    requires
        repo.stored().contains(oldest),
        oldest.answer is Some,
        forall|i: int|
            0 <= i < repo.stored().len() && #[trigger] repo.stored()[i].answer is Some
                ==> oldest.id <= repo.stored()[i].id,
        match r {
            Some(q) => q.answer is Some && q.id < oldest.id && repo.lookup(q.id) == Some(q),
            None => true,
        },
    ensures
        r is None,
{
    if r is Some {
        let q = r->0;
        assert(repo.stored()[q.id - 1] == q);
    }
}

/// The answered question with the largest id has no next one: whatever `find_next_answer` may
/// return for its id (`r`, held to that function's contract), it is nothing.
pub proof fn law_newest_has_no_next(repo: Repository, newest: QuestionView, r: Option<QuestionView>)
    requires
        repo.stored().contains(newest),
        newest.answer is Some,
        forall|i: int|
            0 <= i < repo.stored().len() && #[trigger] repo.stored()[i].answer is Some
                ==> repo.stored()[i].id <= newest.id,
        match r {
            Some(q) => q.answer is Some && newest.id < q.id && repo.lookup(q.id) == Some(q),
            None => true,
        },
    ensures
        r is None,
{
    if r is Some {
        let q = r->0;
        assert(repo.stored()[q.id - 1] == q);
    }
}

} // verus!
