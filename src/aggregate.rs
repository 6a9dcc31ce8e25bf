use vstd::prelude::*;

use crate::model::{answer_view, views, Answer, AnswerView, Question, QuestionView};

verus! {

/// A row of questions left-joined with answers: a question and the answer on the same row, if
/// any.
pub open spec fn row_view(row: (Question, Option<Answer>)) -> (QuestionView, Option<AnswerView>) {
    (row.0@, answer_view(row.1))
}

/// The views of a list of rows.
pub open spec fn row_views(rows: Seq<(Question, Option<Answer>)>) -> Seq<
    (QuestionView, Option<AnswerView>),
> {
    rows.map_values(|row: (Question, Option<Answer>)| row_view(row))
}

/// The position of the question with id `id` in `qs`, or -1 when there is none.
pub open spec fn index_of_id(qs: Seq<QuestionView>, id: i32) -> int
    decreases qs.len(),
{
    if qs.len() == 0 {
        -1
    } else if qs.last().id == id {
        qs.len() - 1
    } else {
        index_of_id(qs.drop_last(), id)
    }
}

/// The questions of `rows`, grouped by id in the order in which each id first appears, each with
/// the first answer that a row of its group holds.
pub open spec fn aggregate(rows: Seq<(QuestionView, Option<AnswerView>)>) -> Seq<QuestionView>
    decreases rows.len(),
{
    if rows.len() == 0 {
        Seq::empty()
    } else {
        let acc = aggregate(rows.drop_last());
        let q = rows.last().0;
        let a = rows.last().1;
        let k = index_of_id(acc, q.id);
        if k < 0 {
            acc.push(QuestionView { answer: a, ..q })
        } else if acc[k].answer is None && a is Some {
            acc.update(k, QuestionView { answer: a, ..acc[k] })
        } else {
            acc
        }
    }
}

proof fn lemma_index_of_id(qs: Seq<QuestionView>, id: i32)
    ensures
        -1 <= index_of_id(qs, id) < qs.len(),
        index_of_id(qs, id) >= 0 ==> qs[index_of_id(qs, id)].id == id,
        index_of_id(qs, id) < 0 ==> forall|k: int| 0 <= k < qs.len() ==> #[trigger] qs[k].id != id,
    decreases qs.len(),
{
    if qs.len() > 0 {
        lemma_index_of_id(qs.drop_last(), id);
        if qs.last().id != id && index_of_id(qs, id) < 0 {
            assert forall|k: int| 0 <= k < qs.len() implies #[trigger] qs[k].id != id by {
                if k < qs.len() - 1 {
                    assert(qs[k] == qs.drop_last()[k]);
                }
            }
        }
    }
}

/// Each id appears once in what `aggregate` gives, and every id of the rows appears there.
pub proof fn law_aggregate_keeps_each_id_once(rows: Seq<(QuestionView, Option<AnswerView>)>)
    ensures
        forall|j: int, k: int|
            #![trigger aggregate(rows)[j], aggregate(rows)[k]]
            0 <= j < k < aggregate(rows).len() ==> aggregate(rows)[j].id != aggregate(rows)[k].id,
        forall|i: int|
            0 <= i < rows.len() ==> exists|k: int|
                0 <= k < aggregate(rows).len() && #[trigger] aggregate(rows)[k].id == (
                #[trigger] rows[i]).0.id,
    decreases rows.len(),
{
    if rows.len() > 0 {
        let prev = rows.drop_last();
        law_aggregate_keeps_each_id_once(prev);
        let acc = aggregate(prev);
        let q = rows.last().0;
        lemma_index_of_id(acc, q.id);
        let out = aggregate(rows);
        assert forall|i: int| 0 <= i < rows.len() implies exists|k: int|
            0 <= k < out.len() && #[trigger] out[k].id == (#[trigger] rows[i]).0.id by {
            if i < rows.len() - 1 {
                assert(rows[i] == prev[i]);
                let k = choose|k: int| 0 <= k < acc.len() && #[trigger] acc[k].id == (#[trigger] prev[i]).0.id;
                assert(out[k].id == acc[k].id);
            } else {
                let k = index_of_id(acc, q.id);
                if k < 0 {
                    assert(out[acc.len() as int].id == q.id);
                } else {
                    assert(out[k].id == q.id);
                }
            }
        }
        assert forall|j: int, k: int|
            #![trigger out[j], out[k]]
            0 <= j < k < out.len() implies out[j].id != out[k].id by {
            if k < acc.len() {
                assert(out[j].id == acc[j].id && out[k].id == acc[k].id);
                assert(acc[j].id != acc[k].id);
            } else {
                assert(out[j].id == acc[j].id);
            }
        }
    }
}

/// The position of the first row of `rows` whose question has id `id`, or -1 when none has.
pub open spec fn first_index(rows: Seq<(QuestionView, Option<AnswerView>)>, id: i32) -> int
    decreases rows.len(),
{
    if rows.len() == 0 {
        -1
    } else {
        let p = first_index(rows.drop_last(), id);
        if p >= 0 {
            p
        } else if rows.last().0.id == id {
            rows.len() - 1
        } else {
            -1
        }
    }
}

/// The first answer that a row of question `id` holds, if any does.
pub open spec fn first_answer(rows: Seq<(QuestionView, Option<AnswerView>)>, id: i32) -> Option<
    AnswerView,
>
    decreases rows.len(),
{
    if rows.len() == 0 {
        None
    } else {
        let p = first_answer(rows.drop_last(), id);
        if p is Some {
            p
        } else if rows.last().0.id == id {
            rows.last().1
        } else {
            None
        }
    }
}

proof fn lemma_first_index(rows: Seq<(QuestionView, Option<AnswerView>)>, id: i32)
    ensures
        -1 <= first_index(rows, id) < rows.len(),
        first_index(rows, id) >= 0 ==> rows[first_index(rows, id)].0.id == id,
        forall|i: int| 0 <= i < rows.len() && i < first_index(rows, id) ==> (#[trigger] rows[i]).0.id != id,
        first_index(rows, id) < 0 ==> forall|i: int| 0 <= i < rows.len() ==> (#[trigger] rows[i]).0.id != id,
        first_index(rows, id) < 0 ==> first_answer(rows, id) is None,
    decreases rows.len(),
{
    if rows.len() > 0 {
        let prev = rows.drop_last();
        lemma_first_index(prev, id);
        assert forall|i: int| 0 <= i < prev.len() implies #[trigger] rows[i] == prev[i] by {}
    }
}

/// The facts of the question at position `k` of `aggregate(rows)`.
pub open spec fn from_first_row(rows: Seq<(QuestionView, Option<AnswerView>)>, k: int) -> bool {
    let q = aggregate(rows)[k];
    let i = first_index(rows, q.id);
    0 <= i && rows[i].0.id == q.id && q == (QuestionView { answer: first_answer(rows, q.id), ..rows[i].0 })
}

/// The first row of an id is unchanged by a later row, and so is its first answer unless it
/// had none.
proof fn lemma_first_step(rows: Seq<(QuestionView, Option<AnswerView>)>, id: i32)
    requires
        rows.len() > 0,
        first_index(rows.drop_last(), id) >= 0,
    ensures
        first_index(rows, id) == first_index(rows.drop_last(), id),
        rows[first_index(rows, id)] == rows.drop_last()[first_index(rows, id)],
        first_answer(rows, id) == (if first_answer(rows.drop_last(), id) is Some {
            first_answer(rows.drop_last(), id)
        } else if rows.last().0.id == id {
            rows.last().1
        } else {
            None
        }),
{
    lemma_first_index(rows.drop_last(), id);
}

#[verifier::spinoff_prover]
proof fn lemma_from_first_row(rows: Seq<(QuestionView, Option<AnswerView>)>, k: int)
    requires
        0 <= k < aggregate(rows).len(),
    ensures
        from_first_row(rows, k),
    decreases rows.len(),
{
    let prev = rows.drop_last();
    let acc = aggregate(prev);
    let q = rows.last().0;
    lemma_index_of_id(acc, q.id);
    let k0 = index_of_id(acc, q.id);
    if k0 < 0 && k == acc.len() {
        law_aggregate_keeps_each_id_once(prev);
        lemma_first_index(prev, q.id);
        if first_index(prev, q.id) >= 0 {
            let i = first_index(prev, q.id);
            let kk = choose|kk: int| 0 <= kk < acc.len() && #[trigger] acc[kk].id == (#[trigger] prev[i]).0.id;
            assert(acc[kk].id != q.id);
        }
        assert(first_index(rows, q.id) == rows.len() - 1);
        assert(first_answer(rows, q.id) == rows.last().1);
        assert(aggregate(rows) == acc.push(QuestionView { answer: rows.last().1, ..q }));
        assert(aggregate(rows)[k] == QuestionView { answer: rows.last().1, ..q });
    } else {
        lemma_from_first_row(prev, k);
        let id = acc[k].id;
        lemma_first_step(rows, id);
        let a = rows.last().1;
        if k0 < 0 {
            assert(aggregate(rows) == acc.push(QuestionView { answer: a, ..q }));
            assert(aggregate(rows)[k] == acc[k]);
            assert(id != q.id);
        } else if k == k0 {
            assert(id == q.id);
            if acc[k0].answer is None && a is Some {
                assert(aggregate(rows) == acc.update(k0, QuestionView { answer: a, ..acc[k0] }));
            } else {
                assert(aggregate(rows) == acc);
            }
        } else {
            if acc[k0].answer is None && a is Some {
                assert(aggregate(rows) == acc.update(k0, QuestionView { answer: a, ..acc[k0] }));
            } else {
                assert(aggregate(rows) == acc);
            }
            assert(aggregate(rows)[k] == acc[k]);
            law_aggregate_keeps_each_id_once(prev);
            if k < k0 {
                assert(acc[k].id != acc[k0].id);
            } else {
                assert(acc[k0].id != acc[k].id);
            }
        }
        assert(aggregate(rows)[k].id == id);
    }
}

#[verifier::spinoff_prover]
proof fn lemma_first_rows_ordered(rows: Seq<(QuestionView, Option<AnswerView>)>, j: int, k: int)
    requires
        0 <= j < k < aggregate(rows).len(),
    ensures
        first_index(rows, aggregate(rows)[j].id) < first_index(rows, aggregate(rows)[k].id),
    decreases rows.len(),
{
    let prev = rows.drop_last();
    let acc = aggregate(prev);
    let q = rows.last().0;
    lemma_index_of_id(acc, q.id);
    let k0 = index_of_id(acc, q.id);
    lemma_from_first_row(prev, j);
    lemma_first_step(rows, acc[j].id);
    lemma_first_index(prev, acc[j].id);
    if k0 < 0 && k == acc.len() {
        assert(aggregate(rows) == acc.push(QuestionView { answer: rows.last().1, ..q }));
        assert(aggregate(rows)[j].id == acc[j].id);
        assert(aggregate(rows)[k].id == q.id);
        law_aggregate_keeps_each_id_once(prev);
        lemma_first_index(prev, q.id);
        if first_index(prev, q.id) >= 0 {
            let i = first_index(prev, q.id);
            let kk = choose|kk: int| 0 <= kk < acc.len() && #[trigger] acc[kk].id == (#[trigger] prev[i]).0.id;
            assert(acc[kk].id != q.id);
        }
        assert(first_index(rows, q.id) == rows.len() - 1);
    } else {
        lemma_first_rows_ordered(prev, j, k);
        lemma_from_first_row(prev, k);
        lemma_first_step(rows, acc[k].id);
        let a = rows.last().1;
        if k0 < 0 {
            assert(aggregate(rows) == acc.push(QuestionView { answer: a, ..q }));
        } else if acc[k0].answer is None && a is Some {
            assert(aggregate(rows) == acc.update(k0, QuestionView { answer: a, ..acc[k0] }));
        } else {
            assert(aggregate(rows) == acc);
        }
        assert(aggregate(rows)[k].id == acc[k].id);
        assert(aggregate(rows)[j].id == acc[j].id);
    }
}

/// What `rows_to_questions` gives, said directly: each question comes from the first row of its
/// id, carries the first answer that any row of that id holds, and the questions come in the
/// order of those first rows.
pub proof fn law_aggregate_takes_first_rows(rows: Seq<(QuestionView, Option<AnswerView>)>)
    ensures
        forall|k: int| 0 <= k < aggregate(rows).len() ==> #[trigger] from_first_row(rows, k),
        forall|j: int, k: int|
            #![trigger aggregate(rows)[j], aggregate(rows)[k]]
            0 <= j < k < aggregate(rows).len() ==> first_index(rows, aggregate(rows)[j].id)
                < first_index(rows, aggregate(rows)[k].id),
{
    assert forall|k: int| 0 <= k < aggregate(rows).len() implies #[trigger] from_first_row(rows, k) by {
        lemma_from_first_row(rows, k);
    }
    assert forall|j: int, k: int|
        #![trigger aggregate(rows)[j], aggregate(rows)[k]]
        0 <= j < k < aggregate(rows).len() implies first_index(rows, aggregate(rows)[j].id)
        < first_index(rows, aggregate(rows)[k].id) by {
        lemma_first_rows_ordered(rows, j, k);
    }
}

fn clone_question(q: &Question, answer: Option<Answer>) -> (r: Question)
    ensures
        r@ == (QuestionView { answer: answer_view(answer), ..q@ }),
{
    Question {
        id: q.id,
        body: q.body.clone(),
        ip_address: q.ip_address.clone(),
        created_at: q.created_at,
        hidden: q.hidden,
        answer,
    }
}

fn clone_answer_opt(a: &Option<Answer>) -> (r: Option<Answer>)
    ensures
        answer_view(r) == answer_view(*a),
{
    match a {
        Some(a) => Some(
            Answer { id: a.id, question_id: a.question_id, body: a.body.clone(), created_at: a.created_at },
        ),
        None => None,
    }
}

fn position(qs: &Vec<Question>, id: i32) -> (r: Option<usize>)
    ensures
        match r {
            Some(k) => k < qs@.len() && k as int == index_of_id(views(qs@), id),
            None => index_of_id(views(qs@), id) < 0,
        },
{
    proof {
        lemma_index_of_id(views(qs@), id);
    }
    let mut k: usize = qs.len();
    assert(views(qs@).subrange(0, k as int) =~= views(qs@));
    while k > 0
        invariant
            k <= qs@.len(),
            index_of_id(views(qs@), id) == index_of_id(views(qs@).subrange(0, k as int), id),
        decreases k,
    {
        assert(views(qs@).subrange(0, k as int).drop_last() =~= views(qs@).subrange(0, k - 1));
        if qs[k - 1].id == id {
            return Some(k - 1);
        }
        k = k - 1;
    }
    None
}

/// Groups the rows of a left join of questions with answers into questions with their answers:
/// each id once, in the order of its first row, with the first answer that its rows hold.
pub fn rows_to_questions(rows: &Vec<(Question, Option<Answer>)>) -> (r: Vec<Question>)
    ensures
        views(r@) == aggregate(row_views(rows@)),
        forall|k: int|
            0 <= k < r@.len() ==> 0 <= first_index(row_views(rows@), (#[trigger] r@[k]).id)
                && rows@[first_index(row_views(rows@), r@[k].id)].0.id == r@[k].id && r@[k]@ == (
            QuestionView {
                answer: first_answer(row_views(rows@), r@[k].id),
                ..rows@[first_index(row_views(rows@), r@[k].id)].0@
            }),
        forall|j: int, k: int|
            #![trigger r@[j], r@[k]]
            0 <= j < k < r@.len() ==> r@[j].id != r@[k].id && first_index(row_views(rows@), r@[j].id)
                < first_index(row_views(rows@), r@[k].id),
        forall|i: int|
            0 <= i < rows@.len() ==> exists|k: int|
                0 <= k < r@.len() && #[trigger] r@[k].id == (#[trigger] rows@[i]).0.id,
{
    let ghost all = row_views(rows@);
    let mut out: Vec<Question> = Vec::new();
    let mut i: usize = 0;
    assert(views(out@) =~= Seq::<QuestionView>::empty());
    while i < rows.len()
        invariant
            all == row_views(rows@),
            i <= rows@.len(),
            views(out@) == aggregate(all.subrange(0, i as int)),
        decreases rows@.len() - i,
    {
        let ghost pre = all.subrange(0, i as int);
        assert(all.subrange(0, i + 1).drop_last() =~= pre);
        let row = &rows[i];
        let ghost before = out@;
        match position(&out, row.0.id) {
            None => {
                let q = clone_question(&row.0, clone_answer_opt(&row.1));
                out.push(q);
                assert(views(out@) =~= views(before).push(q@));
            },
            Some(k) => {
                if out[k].answer.is_none() && row.1.is_some() {
                    let q = clone_question(&out[k], clone_answer_opt(&row.1));
                    out.set(k, q);
                    assert(views(out@) =~= views(before).update(k as int, q@));
                }
            },
        }
        i = i + 1;
    }
    assert(all.subrange(0, i as int) =~= all);
    proof {
        law_aggregate_keeps_each_id_once(all);
        law_aggregate_takes_first_rows(all);
        let agg = aggregate(all);
        assert forall|k: int| 0 <= k < out@.len() implies 0 <= first_index(all, (#[trigger] out@[k]).id)
            && rows@[first_index(all, out@[k].id)].0.id == out@[k].id && out@[k]@ == (QuestionView {
            answer: first_answer(all, out@[k].id),
            ..rows@[first_index(all, out@[k].id)].0@
        }) by {
            assert(agg[k] == out@[k]@);
            assert(from_first_row(all, k));
            lemma_first_index(all, out@[k].id);
            assert(all[first_index(all, out@[k].id)] == row_view(rows@[first_index(all, out@[k].id)]));
        }
        assert forall|j: int, k: int|
            #![trigger out@[j], out@[k]]
            0 <= j < k < out@.len() implies out@[j].id != out@[k].id && first_index(all, out@[j].id)
            < first_index(all, out@[k].id) by {
            assert(agg[j] == out@[j]@ && agg[k] == out@[k]@);
        }
        assert forall|i: int| 0 <= i < rows@.len() implies exists|k: int|
            0 <= k < out@.len() && #[trigger] out@[k].id == (#[trigger] rows@[i]).0.id by {
            assert(all[i] == row_view(rows@[i]));
            let k = choose|k: int| 0 <= k < agg.len() && #[trigger] agg[k].id == (#[trigger] all[i]).0.id;
            assert(agg[k] == out@[k]@);
        }
    }
    out
}

} // verus!
