//! Small reusable proofs about filtered sequences, multisets and disjoint
//! sets, used throughout the engine's verification.
use vstd::prelude::*;
use vstd::multiset::Multiset;

use crate::model::{
    Answer, ExamInput, GeneratedExam, GeneratedQuestionSet, Question, QuestionSet,
    QuestionSetConfig, answer_ids_valid, blocks_match, correct_id_pred, gen_set_valid,
    has_answer_id, has_correct_answer_id, has_incorrect_answer_id, incorrect_id_pred,
    valid_generated_exam,
};

verus! {

/// Filtering after inserting one element inserts the element into the filter
/// result exactly when it satisfies the predicate.
pub proof fn lemma_ms_filter_insert<T>(m: Multiset<T>, x: T, p: spec_fn(T) -> bool)
    ensures
        p(x) ==> m.insert(x).filter(p) == m.filter(p).insert(x),
        !p(x) ==> m.insert(x).filter(p) == m.filter(p),
{
    broadcast use vstd::multiset::group_multiset_axioms;

    if p(x) {
        assert(m.insert(x).filter(p) =~= m.filter(p).insert(x));
    } else {
        assert(m.insert(x).filter(p) =~= m.filter(p));
    }
}

/// Removing one element that satisfies the predicate shrinks the filter by
/// exactly that element.
pub proof fn lemma_ms_filter_remove<T>(m: Multiset<T>, x: T, p: spec_fn(T) -> bool)
    requires
        m.count(x) > 0,
        p(x),
    ensures
        m.remove(x).filter(p).len() + 1 == m.filter(p).len(),
{
    broadcast use vstd::multiset::group_multiset_axioms;

    assert(m.remove(x).insert(x) =~= m);
    lemma_ms_filter_insert(m.remove(x), x, p);
    vstd::multiset::lemma_insert_len(m.remove(x).filter(p), x);
}

/// Filtering a sequence and filtering its multiset agree.
pub proof fn lemma_seq_filter_multiset<T>(s: Seq<T>, p: spec_fn(T) -> bool)
    ensures
        s.filter(p).to_multiset() == s.to_multiset().filter(p),
    decreases s.len(),
{
    broadcast use vstd::multiset::group_multiset_axioms;
    broadcast use vstd::multiset::lemma_multiset_empty_len;
    broadcast use Seq::to_multiset_ensures;
    broadcast use Seq::lemma_filter_push;

    if s.len() == 0 {
        assert(s.to_multiset().len() == 0);
        assert(s.to_multiset() =~= Multiset::<T>::empty());
        assert(s.to_multiset().filter(p) =~= Multiset::<T>::empty());
        assert(s.filter(p) =~= Seq::<T>::empty());
        assert(s.filter(p).to_multiset().len() == 0);
        assert(s.filter(p).to_multiset() =~= Multiset::<T>::empty());
    } else {
        let butlast = s.drop_last();
        let x = s.last();
        lemma_seq_filter_multiset(butlast, p);
        assert(s =~= butlast.push(x));
        vstd::seq_lib::to_multiset_build(butlast, x);
        lemma_ms_filter_insert(butlast.to_multiset(), x, p);
        assert(butlast.push(x).filter(p) == if p(x) {
            butlast.filter(p).push(x)
        } else {
            butlast.filter(p)
        });
        if p(x) {
            vstd::seq_lib::to_multiset_build(butlast.filter(p), x);
        }
    }
}

/// The multiset of a concatenation adds the parts' multisets.
pub proof fn lemma_concat_multiset<T>(a: Seq<T>, b: Seq<T>)
    ensures
        (a + b).to_multiset() == a.to_multiset().add(b.to_multiset()),
    decreases b.len(),
{
    broadcast use vstd::multiset::group_multiset_axioms;
    broadcast use vstd::multiset::lemma_multiset_empty_len;
    broadcast use Seq::to_multiset_ensures;

    if b.len() == 0 {
        assert(a + b =~= a);
        assert(b.to_multiset().len() == 0);
        assert(b.to_multiset() =~= Multiset::<T>::empty());
        assert(a.to_multiset().add(b.to_multiset()) =~= a.to_multiset());
    } else {
        let butlast = b.drop_last();
        let x = b.last();
        lemma_concat_multiset(a, butlast);
        assert(a + b =~= (a + butlast).push(x));
        vstd::seq_lib::to_multiset_build(a + butlast, x);
        vstd::seq_lib::to_multiset_build(butlast, x);
        assert(b =~= butlast.push(x));
        assert((a + b).to_multiset() =~= a.to_multiset().add(b.to_multiset()));
    }
}

/// A sequence's filter and its multiset's filter have the same size.
pub proof fn lemma_seq_filter_len_multiset<T>(s: Seq<T>, p: spec_fn(T) -> bool)
    ensures
        s.filter(p).len() == s.to_multiset().filter(p).len(),
    decreases s.len(),
{
    broadcast use vstd::multiset::group_multiset_axioms;
    broadcast use vstd::multiset::lemma_multiset_empty_len;
    broadcast use Seq::to_multiset_ensures;
    broadcast use Seq::lemma_filter_push;

    if s.len() == 0 {
        assert(s.to_multiset().len() == 0);
        assert(s.to_multiset() =~= Multiset::<T>::empty());
        assert(s.to_multiset().filter(p) =~= Multiset::<T>::empty());
        assert(s.filter(p) =~= Seq::<T>::empty());
    } else {
        let butlast = s.drop_last();
        let x = s.last();
        lemma_seq_filter_len_multiset(butlast, p);
        assert(s =~= butlast.push(x));
        vstd::seq_lib::to_multiset_build(butlast, x);
        assert(butlast.push(x).to_multiset() =~= butlast.to_multiset().insert(x));
        lemma_ms_filter_insert(butlast.to_multiset(), x, p);
        assert(butlast.push(x).filter(p) == if p(x) {
            butlast.filter(p).push(x)
        } else {
            butlast.filter(p)
        });
        vstd::multiset::lemma_insert_len(butlast.to_multiset().filter(p), x);
    }
}

/// Two aligned sequences whose elements agree on their predicates have
/// filters of the same size.
pub proof fn lemma_filter_len_pointwise<A, B>(
    s: Seq<A>,
    t: Seq<B>,
    p: spec_fn(A) -> bool,
    q: spec_fn(B) -> bool,
)
    requires
        s.len() == t.len(),
        forall|i: int| 0 <= i < s.len() ==> p(#[trigger] s[i]) == q(#[trigger] t[i]),
    ensures
        s.filter(p).len() == t.filter(q).len(),
    decreases s.len(),
{
    broadcast use Seq::lemma_filter_push;

    if s.len() == 0 {
        assert(s.filter(p) =~= Seq::<A>::empty());
        assert(t.filter(q) =~= Seq::<B>::empty());
    } else {
        lemma_filter_len_pointwise(s.drop_last(), t.drop_last(), p, q);
        assert(s =~= s.drop_last().push(s.last()));
        assert(t =~= t.drop_last().push(t.last()));
        assert(p(s.last()) == q(t.last()));
    }
}

/// Predicates that agree on every element of a sequence filter it alike.
pub proof fn lemma_filter_equiv<T>(s: Seq<T>, p1: spec_fn(T) -> bool, p2: spec_fn(T) -> bool)
    requires
        forall|x: T| s.contains(x) ==> (p1(x) <==> p2(x)),
    ensures
        s.filter(p1) == s.filter(p2),
    decreases s.len(),
{
    broadcast use Seq::lemma_filter_push;

    if s.len() == 0 {
        assert(s.filter(p1) =~= Seq::<T>::empty());
        assert(s.filter(p2) =~= Seq::<T>::empty());
    } else {
        assert forall|x: T| s.drop_last().contains(x) implies (p1(x) <==> p2(x)) by {
            let i = choose|i: int| 0 <= i < s.drop_last().len() && s.drop_last()[i] == x;
            assert(s[i] == x);
            assert(s.contains(x));
        }
        lemma_filter_equiv(s.drop_last(), p1, p2);
        assert(s =~= s.drop_last().push(s.last()));
        assert(s.contains(s.last()));
    }
}

/// A filter keeps a sequence whole when every element satisfies the
/// predicate.
pub proof fn lemma_filter_all_true<T>(s: Seq<T>, p: spec_fn(T) -> bool)
    requires
        forall|i: int| 0 <= i < s.len() ==> p(#[trigger] s[i]),
    ensures
        s.filter(p) == s,
    decreases s.len(),
{
    broadcast use Seq::lemma_filter_push;

    if s.len() == 0 {
        assert(s.filter(p) =~= Seq::<T>::empty());
    } else {
        lemma_filter_all_true(s.drop_last(), p);
        assert(s =~= s.drop_last().push(s.last()));
        assert(s.filter(p) =~= s);
    }
}

/// A filter drops a sequence entirely when no element satisfies the
/// predicate.
pub proof fn lemma_filter_all_false<T>(s: Seq<T>, p: spec_fn(T) -> bool)
    requires
        forall|i: int| 0 <= i < s.len() ==> !p(#[trigger] s[i]),
    ensures
        s.filter(p) == Seq::<T>::empty(),
    decreases s.len(),
{
    broadcast use Seq::lemma_filter_push;

    if s.len() == 0 {
        assert(s.filter(p) =~= Seq::<T>::empty());
    } else {
        lemma_filter_all_false(s.drop_last(), p);
        assert(s =~= s.drop_last().push(s.last()));
    }
}

/// Questions with equal answer multisets agree on which ids name an answer,
/// a correct answer, and an incorrect answer.
pub proof fn lemma_answer_membership_transfer(q1: Question, q2: Question)
    requires
        q1.answers@.to_multiset() == q2.answers@.to_multiset(),
    ensures
        forall|id: u64| has_answer_id(q1, id) <==> has_answer_id(q2, id),
        forall|id: u64| has_correct_answer_id(q1, id) <==> has_correct_answer_id(q2, id),
        forall|id: u64| has_incorrect_answer_id(q1, id) <==> has_incorrect_answer_id(q2, id),
{
    q1.answers@.to_multiset_ensures();
    q2.answers@.to_multiset_ensures();
    assert forall|a: Answer| q1.answers@.contains(a) implies q2.answers@.contains(a) by {
        assert(q1.answers@.to_multiset().count(a) > 0);
        assert(q2.answers@.to_multiset().count(a) > 0);
    }
    assert forall|a: Answer| q2.answers@.contains(a) implies q1.answers@.contains(a) by {
        assert(q2.answers@.to_multiset().count(a) > 0);
        assert(q1.answers@.to_multiset().count(a) > 0);
    }
    assert forall|id: u64| has_answer_id(q1, id) implies has_answer_id(q2, id) by {
        let i = choose|i: int| 0 <= i < q1.answers@.len() && q1.answers@[i].id == id;
        assert(q1.answers@.contains(q1.answers@[i]));
        let j = choose|j: int| 0 <= j < q2.answers@.len() && q2.answers@[j] == q1.answers@[i];
    }
    assert forall|id: u64| has_answer_id(q2, id) implies has_answer_id(q1, id) by {
        let i = choose|i: int| 0 <= i < q2.answers@.len() && q2.answers@[i].id == id;
        assert(q2.answers@.contains(q2.answers@[i]));
        let j = choose|j: int| 0 <= j < q1.answers@.len() && q1.answers@[j] == q2.answers@[i];
    }
    assert forall|id: u64| has_correct_answer_id(q1, id) implies has_correct_answer_id(q2, id) by {
        let i = choose|i: int|
            0 <= i < q1.answers@.len() && q1.answers@[i].id == id && q1.answers@[i].is_correct;
        assert(q1.answers@.contains(q1.answers@[i]));
        let j = choose|j: int| 0 <= j < q2.answers@.len() && q2.answers@[j] == q1.answers@[i];
    }
    assert forall|id: u64| has_correct_answer_id(q2, id) implies has_correct_answer_id(q1, id) by {
        let i = choose|i: int|
            0 <= i < q2.answers@.len() && q2.answers@[i].id == id && q2.answers@[i].is_correct;
        assert(q2.answers@.contains(q2.answers@[i]));
        let j = choose|j: int| 0 <= j < q1.answers@.len() && q1.answers@[j] == q2.answers@[i];
    }
    assert forall|id: u64| has_incorrect_answer_id(q1, id) implies has_incorrect_answer_id(
        q2,
        id,
    ) by {
        let i = choose|i: int|
            0 <= i < q1.answers@.len() && q1.answers@[i].id == id && !q1.answers@[i].is_correct;
        assert(q1.answers@.contains(q1.answers@[i]));
        let j = choose|j: int| 0 <= j < q2.answers@.len() && q2.answers@[j] == q1.answers@[i];
    }
    assert forall|id: u64| has_incorrect_answer_id(q2, id) implies has_incorrect_answer_id(
        q1,
        id,
    ) by {
        let i = choose|i: int|
            0 <= i < q2.answers@.len() && q2.answers@[i].id == id && !q2.answers@[i].is_correct;
        assert(q2.answers@.contains(q2.answers@[i]));
        let j = choose|j: int| 0 <= j < q1.answers@.len() && q1.answers@[j] == q2.answers@[i];
    }
}

/// A valid answer selection for a question stays valid for any question with
/// the same answers up to order.
pub proof fn lemma_answer_ids_valid_transfer(
    q1: Question,
    q2: Question,
    c: QuestionSetConfig,
    ids: Seq<u64>,
)
    requires
        q1.answers@.to_multiset() == q2.answers@.to_multiset(),
        answer_ids_valid(q1, c, ids),
    ensures
        answer_ids_valid(q2, c, ids),
{
    lemma_answer_membership_transfer(q1, q2);
    lemma_filter_equiv(ids, correct_id_pred(q1), correct_id_pred(q2));
    lemma_filter_equiv(ids, incorrect_id_pred(q1), incorrect_id_pred(q2));
    assert forall|i: int| 0 <= i < ids.len() implies has_answer_id(q2, #[trigger] ids[i]) by {
        assert(has_answer_id(q1, ids[i]));
    }
}

/// Two disjoint finite sets unite into a set as large as both together.
pub proof fn lemma_disjoint_union_len<T>(s1: Set<T>, s2: Set<T>)
    requires
        s1.finite(),
        s2.finite(),
        s1.disjoint(s2),
    ensures
        s1.union(s2).finite(),
        s1.union(s2).len() == s1.len() + s2.len(),
    decreases s1.len(),
{
    broadcast use vstd::set::group_set_axioms;
    broadcast use vstd::set_lib::group_set_properties;

    if s1.is_empty() {
        assert(s1.union(s2) =~= s2);
    } else {
        let a = s1.choose();
        assert(s1.contains(a));
        assert(!s2.contains(a));
        assert(s1.remove(a).disjoint(s2));
        lemma_disjoint_union_len(s1.remove(a), s2);
        assert(s1.remove(a).union(s2) =~= s1.union(s2).remove(a));
        assert(s1.union(s2).contains(a));
    }
}

/// The number of generated sets all configs together call for.
pub open spec fn total_number_of_sets(cfgs: Seq<QuestionSetConfig>) -> nat
    decreases cfgs.len(),
{
    if cfgs.len() == 0 {
        0
    } else {
        (cfgs[0].number_of_set + total_number_of_sets(cfgs.drop_first())) as nat
    }
}

/// Matched blocks hold exactly as many sets as their configs call for.
pub proof fn lemma_blocks_match_len(
    orig: Seq<QuestionSet>,
    cfgs: Seq<QuestionSetConfig>,
    sets: Seq<GeneratedQuestionSet>,
)
    requires
        blocks_match(orig, cfgs, sets),
    ensures
        sets.len() == total_number_of_sets(cfgs),
    decreases cfgs.len(),
{
    if cfgs.len() > 0 {
        lemma_blocks_match_len(
            orig,
            cfgs.drop_first(),
            sets.skip(cfgs[0].number_of_set as int),
        );
    }
}

/// The total set count does not depend on the position an entry holds.
proof fn lemma_total_sets_remove(cfgs: Seq<QuestionSetConfig>, i: int)
    requires
        0 <= i < cfgs.len(),
    ensures
        total_number_of_sets(cfgs) == cfgs[i].number_of_set + total_number_of_sets(
            cfgs.remove(i),
        ),
    decreases cfgs.len(),
{
    if i == 0 {
        assert(cfgs.remove(0) =~= cfgs.drop_first());
    } else {
        lemma_total_sets_remove(cfgs.drop_first(), i - 1);
        assert(cfgs.remove(i).drop_first() =~= cfgs.drop_first().remove(i - 1));
        assert(cfgs.remove(i)[0] == cfgs[0]);
    }
}

/// Config lists with the same entries call for the same number of sets.
pub proof fn lemma_total_sets_permutation(a: Seq<QuestionSetConfig>, b: Seq<QuestionSetConfig>)
    requires
        a.to_multiset() == b.to_multiset(),
    ensures
        total_number_of_sets(a) == total_number_of_sets(b),
    decreases a.len(),
{
    a.to_multiset_ensures();
    b.to_multiset_ensures();
    if a.len() == 0 {
        assert(b.to_multiset().len() == 0);
        assert(b.len() == 0);
    } else {
        let x = a[0];
        assert(a.contains(x));
        assert(a.to_multiset().count(x) > 0);
        assert(b.to_multiset().count(x) > 0);
        assert(b.contains(x));
        let i = choose|i: int| 0 <= i < b.len() && b[i] == x;
        lemma_total_sets_remove(b, i);
        assert(a.drop_first() =~= a.remove(0));
        vstd::seq_lib::to_multiset_remove(a, 0);
        vstd::seq_lib::to_multiset_remove(b, i);
        lemma_total_sets_permutation(a.drop_first(), b.remove(i));
    }
}

/// The set-count law: every successful generation carries exactly as many
/// question sets as the configuration's quotas add up to, however the
/// configs were reordered.
pub proof fn lemma_generated_exam_set_count(exam: ExamInput, g: GeneratedExam)
    requires
        valid_generated_exam(exam, g),
    ensures
        g.question_sets@.len() == total_number_of_sets(exam.config.question_sets@),
{
    let cfgs = choose|cfgs: Seq<QuestionSetConfig>|
        cfgs.to_multiset() == exam.config.question_sets@.to_multiset() && blocks_match(
            exam.question_sets@,
            cfgs,
            g.question_sets@,
        );
    lemma_blocks_match_len(exam.question_sets@, cfgs, g.question_sets@);
    lemma_total_sets_permutation(cfgs, exam.config.question_sets@);
}

/// Appending one config's block to a matched prefix keeps the blocks
/// matched.
pub proof fn lemma_blocks_match_push(
    orig: Seq<QuestionSet>,
    cfgs: Seq<QuestionSetConfig>,
    sets: Seq<GeneratedQuestionSet>,
    c: QuestionSetConfig,
    block: Seq<GeneratedQuestionSet>,
)
    requires
        blocks_match(orig, cfgs, sets),
        block.len() == c.number_of_set,
        forall|i: int|
            0 <= i < block.len()
                ==> gen_set_valid(orig, c, #[trigger] block[i])
                    && block[i].questions@.len() == c.number_of_questions,
        forall|i: int, j: int|
            0 <= i < j < block.len() ==> (#[trigger] block[i]).id != (#[trigger] block[j]).id,
    ensures
        blocks_match(orig, cfgs.push(c), sets + block),
    decreases cfgs.len(),
{
    if cfgs.len() == 0 {
        assert(sets.len() == 0);
        assert(sets + block =~= block);
        let all = cfgs.push(c);
        assert(all[0] == c);
        assert(all.drop_first() =~= Seq::<QuestionSetConfig>::empty());
        assert(block.skip(c.number_of_set as int) =~= Seq::<GeneratedQuestionSet>::empty());
        assert(blocks_match(orig, all.drop_first(), block.skip(c.number_of_set as int)));
        assert forall|i: int| 0 <= i < c.number_of_set implies gen_set_valid(
            orig,
            c,
            #[trigger] (sets + block)[i],
        ) && (sets + block)[i].questions@.len() == c.number_of_questions by {
            assert((sets + block)[i] == block[i]);
        }
        assert forall|i: int, j: int|
            0 <= i < j < c.number_of_set implies (#[trigger] (sets + block)[i]).id != (
        #[trigger] (sets + block)[j]).id by {
            assert((sets + block)[i] == block[i]);
            assert((sets + block)[j] == block[j]);
        }
    } else {
        let c0 = cfgs[0];
        let n0 = c0.number_of_set as int;
        lemma_blocks_match_push(orig, cfgs.drop_first(), sets.skip(n0), c, block);
        let all = cfgs.push(c);
        assert(all[0] == c0);
        assert(all.drop_first() =~= cfgs.drop_first().push(c));
        assert((sets + block).skip(n0) =~= sets.skip(n0) + block);
        assert forall|i: int| 0 <= i < n0 implies gen_set_valid(orig, c0, #[trigger] (sets
            + block)[i]) && (sets + block)[i].questions@.len() == c0.number_of_questions by {
            assert((sets + block)[i] == sets[i]);
        }
        assert forall|i: int, j: int|
            0 <= i < j < c0.number_of_set implies (#[trigger] (sets + block)[i]).id != (
        #[trigger] (sets + block)[j]).id by {
            assert((sets + block)[i] == sets[i]);
            assert((sets + block)[j] == sets[j]);
        }
    }
}

} // verus!
