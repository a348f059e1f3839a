//! Pool preparation and config normalization: the working pool drops
//! deprecated questions and randomizes set, question and answer order; the
//! question-set configs are reordered randomly within each kind.
use vstd::prelude::*;
use vstd::multiset::Multiset;

use crate::model::{
    Question, QuestionSet, QuestionSetConfig, QuestionType, answer_ids_distinct,
    input_set_present, live_pred, pool_set_prepared, pool_wf, prepared_from, question_from,
    question_from_seq, set_answer_ids_distinct, set_from, set_qids_distinct, wf_sets,
};
use crate::randomness::{is_perm, shuffle};

verus! {

/// Prepares one set's question list: drops deprecated questions, shuffles
/// each kept question's answers, and shuffles the question order.  The
/// result holds exactly one question per live input question, ids and tags
/// unchanged, answers equal up to order.
#[verifier::rlimit(50)]
fn prepare_questions(questions: Vec<Question>, rng: &mut rand::rngs::StdRng) -> (r: Vec<
    Question,
>)
    requires
        forall|k: int, l: int|
            0 <= k < l < questions@.len() ==> (#[trigger] questions@[k]).id
                != (#[trigger] questions@[l]).id,
        forall|k: int|
            0 <= k < questions@.len() ==> answer_ids_distinct(#[trigger] questions@[k]),
    ensures
        forall|k: int|
            0 <= k < r@.len() ==> question_from_seq(#[trigger] r@[k], questions@)
                && answer_ids_distinct(r@[k]),
        forall|k: int, l: int|
            0 <= k < l < r@.len() ==> (#[trigger] r@[k]).id != (#[trigger] r@[l]).id,
        forall|m: int|
            0 <= m < questions@.len() && !(#[trigger] questions@[m]).deprecated ==> exists|
                k: int,
            |
                0 <= k < r@.len() && (#[trigger] r@[k]).id == questions@[m].id,
        r@.len() == questions@.filter(live_pred()).len(),
{
    let ghost questions0 = questions@;

    broadcast use Seq::lemma_filter_push;
    broadcast use Seq::lemma_filter_len;
    broadcast use Seq::lemma_take_succ_push;
    broadcast use Seq::lemma_take_len;

    let mut work = questions;
    proof {
        assert(work.len() == work@.len());
    }
    let mut kept: Vec<Question> = Vec::new();
    let ghost mut kpos: Seq<int> = Seq::empty();
    let mut consumed: usize = 0;
    while work.len() > 0
        invariant
            questions0.len() <= usize::MAX,
            consumed + work@.len() == questions0.len(),
            forall|i: int| 0 <= i < work@.len() ==> work@[i] == questions0[consumed + i],
            kpos.len() == kept@.len(),
            kept@.len() == questions0.take(consumed as int).filter(live_pred()).len(),
            forall|k: int|
                0 <= k < kept@.len() ==> question_from_seq(#[trigger] kept@[k], questions0)
                    && answer_ids_distinct(kept@[k]),
            forall|k: int|
                0 <= k < kpos.len() ==> 0 <= #[trigger] kpos[k] < consumed as int
                    && kept@[k].id == questions0[kpos[k]].id,
            forall|k: int, l: int| 0 <= k < l < kpos.len() ==> kpos[k] != kpos[l],
            forall|m: int|
                0 <= m < consumed as int && !(#[trigger] questions0[m]).deprecated
                    ==> exists|k: int|
                        0 <= k < kept@.len() && (#[trigger] kept@[k]).id == questions0[m].id,
        decreases work@.len(),
    {
        let mut q = work.remove(0);
        let ghost qorig = questions0[consumed as int];
        proof {
            assert(q == qorig);
        }
        if !q.deprecated {
            let ghost answers0 = q.answers@;
            shuffle(&mut q.answers, rng);
            proof {
                let p = choose|p: Seq<int>|
                    is_perm(p, answers0.len() as int) && forall|i: int|
                        0 <= i < answers0.len() ==> q.answers@[i] == answers0[#[trigger] p[i]];
                assert forall|a: int, b: int|
                    0 <= a < b < q.answers@.len() implies q.answers@[a].id
                    != q.answers@[b].id by {
                    assert(q.answers@[a] == answers0[p[a]]);
                    assert(q.answers@[b] == answers0[p[b]]);
                    assert(p[a] != p[b]);
                    assert(answer_ids_distinct(qorig));
                }
                assert(q.answers@.to_multiset() == qorig.answers@.to_multiset());
                assert(q.id == qorig.id && q.tags == qorig.tags && q.deprecated
                    == qorig.deprecated);
                assert(question_from_seq(q, questions0));
            }
            let ghost kept_before = kept@;
            kept.push(q);
            proof {
                kpos = kpos.push(consumed as int);
                assert(kept@ == kept_before.push(q));
                assert(kept@[kept@.len() - 1].id == questions0[consumed as int].id);
                assert forall|m: int|
                    0 <= m < consumed as int + 1 && !(#[trigger] questions0[m]).deprecated
                    implies exists|k: int|
                    0 <= k < kept@.len() && (#[trigger] kept@[k]).id == questions0[m].id by {
                    if m < consumed as int {
                        let k = choose|k: int|
                            0 <= k < kept_before.len() && (#[trigger] kept_before[k]).id
                                == questions0[m].id;
                        assert(kept@[k] == kept_before[k]);
                        assert(kept@[k].id == questions0[m].id);
                    } else {
                        assert(kept@[kept@.len() - 1].id == questions0[m].id);
                    }
                }
            }
        } else {
            proof {
                assert(questions0[consumed as int].deprecated);
            }
        }
        consumed = consumed + 1;
    }

    proof {
        assert forall|k: int, l: int|
            0 <= k < l < kept@.len() implies (#[trigger] kept@[k]).id
            != (#[trigger] kept@[l]).id by {
            assert(kept@[k].id == questions0[kpos[k]].id);
            assert(kept@[l].id == questions0[kpos[l]].id);
            assert(kpos[k] != kpos[l]);
        }
    }
    let ghost kept0 = kept@;
    shuffle(&mut kept, rng);
    proof {
        let p = choose|p: Seq<int>|
            is_perm(p, kept0.len() as int) && forall|i: int|
                0 <= i < kept0.len() ==> kept@[i] == kept0[#[trigger] p[i]];
        assert forall|k: int|
            0 <= k < kept@.len() implies question_from_seq(#[trigger] kept@[k], questions0)
            && answer_ids_distinct(kept@[k]) by {
            assert(kept@[k] == kept0[p[k]]);
        }
        assert forall|k: int, l: int|
            0 <= k < l < kept@.len() implies (#[trigger] kept@[k]).id
            != (#[trigger] kept@[l]).id by {
            assert(kept@[k] == kept0[p[k]]);
            assert(kept@[l] == kept0[p[l]]);
            assert(p[k] != p[l]);
        }
        // Every live input question is still represented after the shuffle.
        kept0.to_multiset_ensures();
        kept@.to_multiset_ensures();
        assert(questions0.take(questions0.len() as int) == questions0);
        assert forall|m: int|
            0 <= m < questions0.len() && !(#[trigger] questions0[m]).deprecated implies exists|
            k: int,
        |
            0 <= k < kept@.len() && (#[trigger] kept@[k]).id == questions0[m].id by {
            let k0 = choose|k0: int|
                0 <= k0 < kept0.len() && (#[trigger] kept0[k0]).id == questions0[m].id;
            assert(kept0.contains(kept0[k0]));
            assert(kept0.to_multiset().count(kept0[k0]) > 0);
            assert(kept@.to_multiset().count(kept0[k0]) > 0);
            assert(kept@.contains(kept0[k0]));
            let k = choose|k: int| 0 <= k < kept@.len() && kept@[k] == kept0[k0];
        }
    }
    kept
}

/// Prepares one input set: drops deprecated questions, shuffles each kept
/// question's answers, and shuffles the question order.
fn prepare_set(s: QuestionSet, rng: &mut rand::rngs::StdRng) -> (r: QuestionSet)
    requires
        set_qids_distinct(s),
        set_answer_ids_distinct(s),
    ensures
        prepared_from(r, s),
{
    let ghost s0 = s;
    let QuestionSet { id, qtype, context, questions } = s;
    proof {
        assert(questions@ == s0.questions@);
    }
    let kept = prepare_questions(questions, rng);
    let r = QuestionSet { id, qtype, context, questions: kept };
    proof {
        assert(r.questions@ == kept@);
        assert forall|k: int|
            0 <= k < r.questions@.len() implies question_from(
            #[trigger] r.questions@[k],
            s0,
        ) by {
            assert(question_from_seq(kept@[k], s0.questions@));
        }
        assert(prepared_from(r, s0));
    }
    r
}

/// Prepares the working pool from the input sets: every set prepared (see
/// [`prepare_set`]), set order shuffled.  Never mutates caller data; an empty
/// pool is valid here.
pub fn prepare_pool(sets: Vec<QuestionSet>, rng: &mut rand::rngs::StdRng) -> (pool: Vec<
    QuestionSet,
>)
    requires
        wf_sets(sets@),
    ensures
        pool_wf(pool@, sets@),
        pool@.len() == sets@.len(),
        forall|i: int| 0 <= i < pool@.len() ==> #[trigger] pool_set_prepared(pool@, sets@, i),
        forall|j: int| 0 <= j < sets@.len() ==> #[trigger] input_set_present(pool@, sets@, j),
{
    let ghost sets0 = sets@;
    let mut rest = sets;
    let mut pool: Vec<QuestionSet> = Vec::new();
    while rest.len() > 0
        invariant
            pool@.len() + rest@.len() == sets0.len(),
            forall|i: int| 0 <= i < rest@.len() ==> rest@[i] == sets0[pool@.len() + i],
            forall|i: int|
                0 <= i < pool@.len() ==> prepared_from(#[trigger] pool@[i], sets0[i]),
        decreases rest@.len(),
    {
        let s = rest.remove(0);
        proof {
            assert(set_qids_distinct(sets0[pool@.len() as int]));
            assert(set_answer_ids_distinct(sets0[pool@.len() as int]));
        }
        let p = prepare_set(s, rng);
        pool.push(p);
    }

    let ghost mid = pool@;
    shuffle(&mut pool, rng);
    proof {
        let p = choose|p: Seq<int>|
            is_perm(p, mid.len() as int) && forall|i: int|
                0 <= i < mid.len() ==> pool@[i] == mid[#[trigger] p[i]];
        assert forall|i: int| 0 <= i < pool@.len() implies set_from(#[trigger] pool@[i], sets0)
            && set_answer_ids_distinct(pool@[i]) && set_qids_distinct(pool@[i]) by {
            assert(pool@[i] == mid[p[i]]);
            assert(prepared_from(mid[p[i]], sets0[p[i]]));
        }
        assert forall|i: int, j: int|
            0 <= i < j < pool@.len() implies (#[trigger] pool@[i]).id
            != (#[trigger] pool@[j]).id by {
            assert(pool@[i] == mid[p[i]]);
            assert(pool@[j] == mid[p[j]]);
            assert(p[i] != p[j]);
            assert(prepared_from(mid[p[i]], sets0[p[i]]));
            assert(prepared_from(mid[p[j]], sets0[p[j]]));
        }
        assert forall|i: int, k: int, j: int, l: int|
            0 <= i < pool@.len() && 0 <= k < pool@[i].questions@.len() && 0 <= j < pool@.len()
                && 0 <= l < pool@[j].questions@.len() && (i != j || k != l) implies (
        #[trigger] pool@[i].questions@[k]).id != (#[trigger] pool@[j].questions@[l]).id by {
            assert(pool@[i] == mid[p[i]]);
            assert(pool@[j] == mid[p[j]]);
            assert(prepared_from(mid[p[i]], sets0[p[i]]));
            assert(prepared_from(mid[p[j]], sets0[p[j]]));
            if i == j {
                assert(set_qids_distinct(pool@[i]));
            } else {
                assert(p[i] != p[j]);
                assert(question_from(pool@[i].questions@[k], sets0[p[i]]));
                assert(question_from(pool@[j].questions@[l], sets0[p[j]]));
                let m1 = choose|m: int|
                    0 <= m < sets0[p[i]].questions@.len()
                        && (#[trigger] sets0[p[i]].questions@[m]).id
                        == pool@[i].questions@[k].id && !sets0[p[i]].questions@[m].deprecated
                        && !pool@[i].questions@[k].deprecated && pool@[i].questions@[k].tags
                        == sets0[p[i]].questions@[m].tags
                        && pool@[i].questions@[k].answers@.to_multiset()
                        == sets0[p[i]].questions@[m].answers@.to_multiset();
                let m2 = choose|m: int|
                    0 <= m < sets0[p[j]].questions@.len()
                        && (#[trigger] sets0[p[j]].questions@[m]).id
                        == pool@[j].questions@[l].id && !sets0[p[j]].questions@[m].deprecated
                        && !pool@[j].questions@[l].deprecated && pool@[j].questions@[l].tags
                        == sets0[p[j]].questions@[m].tags
                        && pool@[j].questions@[l].answers@.to_multiset()
                        == sets0[p[j]].questions@[m].answers@.to_multiset();
                assert(sets0[p[i]].questions@[m1].id != sets0[p[j]].questions@[m2].id);
            }
        }
        // One prepared set per input set, and every input set id still there.
        assert(sets0 == sets@);
        assert forall|i: int| 0 <= i < pool@.len() implies #[trigger] pool_set_prepared(
            pool@,
            sets@,
            i,
        ) by {
            assert(pool@[i] == mid[p[i]]);
            assert(prepared_from(mid[p[i]], sets0[p[i]]));
            assert(prepared_from(pool@[i], sets@[p[i]]));
        }
        mid.to_multiset_ensures();
        pool@.to_multiset_ensures();
        assert forall|j: int| 0 <= j < sets@.len() implies #[trigger] input_set_present(
            pool@,
            sets@,
            j,
        ) by {
            assert(prepared_from(mid[j], sets0[j]));
            assert(mid.contains(mid[j]));
            assert(mid.to_multiset().count(mid[j]) > 0);
            assert(pool@.to_multiset().count(mid[j]) > 0);
            assert(pool@.contains(mid[j]));
            let i = choose|i: int| 0 <= i < pool@.len() && pool@[i] == mid[j];
            assert(pool@[i].id == sets@[j].id);
        }
    }
    pool
}

/// The predicate "this config requests kind `t`".
pub open spec fn type_pred(t: QuestionType) -> spec_fn(QuestionSetConfig) -> bool {
    |c: QuestionSetConfig| c.qtype == t
}

/// Counts the configs of kind `t`.
fn count_of_type(v: &Vec<QuestionSetConfig>, t: QuestionType) -> (n: usize)
    ensures
        n == v@.filter(type_pred(t)).len(),
{
    broadcast use Seq::lemma_filter_push;
    broadcast use Seq::lemma_filter_len;
    broadcast use Seq::lemma_take_succ_push;
    broadcast use Seq::lemma_take_len;

    let mut n: usize = 0;
    let mut i: usize = 0;
    while i < v.len()
        invariant
            i <= v@.len(),
            n <= i,
            n == v@.take(i as int).filter(type_pred(t)).len(),
        decreases v@.len() - i,
    {
        if v[i].qtype == t {
            n = n + 1;
        }
        i = i + 1;
    }
    proof {
        assert(v@.take(v@.len() as int) == v@);
    }
    n
}

/// Finds the position of the `r`-th config of kind `t`.
fn find_nth_of_type(v: &Vec<QuestionSetConfig>, t: QuestionType, r: usize) -> (idx: usize)
    requires
        r < v@.filter(type_pred(t)).len(),
    ensures
        idx < v@.len(),
        v@[idx as int].qtype == t,
{
    broadcast use Seq::lemma_filter_push;
    broadcast use Seq::lemma_filter_len;
    broadcast use Seq::lemma_take_succ_push;
    broadcast use Seq::lemma_take_len;

    let mut i: usize = 0;
    let mut seen: usize = 0;
    while i < v.len()
        invariant
            i <= v@.len(),
            seen == v@.take(i as int).filter(type_pred(t)).len(),
            seen <= r,
        decreases v@.len() - i,
    {
        if v[i].qtype == t {
            if seen == r {
                return i;
            }
            seen = seen + 1;
        }
        i = i + 1;
    }
    proof {
        assert(v@.take(v@.len() as int) == v@);
        assert(false);
    }
    0
}

/// The position of the first config of kind `t` (the length when none is).
pub open spec fn first_index_of_type(cfgs: Seq<QuestionSetConfig>, t: QuestionType) -> int
    decreases cfgs.len(),
{
    if cfgs.len() == 0 {
        0
    } else if cfgs[0].qtype == t {
        0
    } else {
        1 + first_index_of_type(cfgs.drop_first(), t)
    }
}

/// The first occurrence of a kind is the earliest position holding it.
proof fn lemma_first_index_of_type(cfgs: Seq<QuestionSetConfig>, t: QuestionType, i: int)
    requires
        0 <= i < cfgs.len(),
        cfgs[i].qtype == t,
        forall|q: int| 0 <= q < i ==> (#[trigger] cfgs[q]).qtype != t,
    ensures
        first_index_of_type(cfgs, t) == i,
    decreases i,
{
    if i == 0 {
    } else {
        assert(cfgs[0].qtype != t);
        lemma_first_index_of_type(cfgs.drop_first(), t, i - 1);
        assert(cfgs.drop_first()[i - 1] == cfgs[i]);
    }
}

/// Whether the kind is already listed.
fn kind_listed(kinds: &Vec<QuestionType>, t: QuestionType) -> (b: bool)
    ensures
        b == exists|bb: int| 0 <= bb < kinds@.len() && kinds@[bb] == t,
{
    let mut b: usize = 0;
    while b < kinds.len()
        invariant
            b <= kinds@.len(),
            forall|bb: int| 0 <= bb < b as int ==> kinds@[bb] != t,
        decreases kinds@.len() - b,
    {
        if kinds[b] == t {
            return true;
        }
        b = b + 1;
    }
    false
}

/// Collects the configs of kind `t`, in order.
fn collect_of_type(cfgs: &Vec<QuestionSetConfig>, t: QuestionType) -> (r: Vec<QuestionSetConfig>)
    ensures
        r@ == cfgs@.filter(type_pred(t)),
{
    broadcast use Seq::lemma_filter_push;
    broadcast use Seq::lemma_take_succ_push;
    broadcast use Seq::lemma_take_len;

    let mut r: Vec<QuestionSetConfig> = Vec::new();
    let mut i: usize = 0;
    while i < cfgs.len()
        invariant
            i <= cfgs@.len(),
            r@ == cfgs@.take(i as int).filter(type_pred(t)),
        decreases cfgs@.len() - i,
    {
        if cfgs[i].qtype == t {
            r.push(cfgs[i]);
        }
        i = i + 1;
    }
    proof {
        assert(cfgs@.take(cfgs@.len() as int) == cfgs@);
    }
    r
}

/// After appending one kind's block, the counts cover one more kind.
proof fn lemma_block_counts(
    cfgs0: Seq<QuestionSetConfig>,
    kinds: Seq<QuestionType>,
    b: int,
    result_before: Seq<QuestionSetConfig>,
    blocknow: Seq<QuestionSetConfig>,
    result: Seq<QuestionSetConfig>,
)
    requires
        0 <= b < kinds.len(),
        forall|a2: int, b2: int| 0 <= a2 < b2 < kinds.len() ==> kinds[a2] != kinds[b2],
        result == result_before + blocknow,
        blocknow.to_multiset() == cfgs0.to_multiset().filter(type_pred(kinds[b])),
        forall|x: QuestionSetConfig|
            #[trigger] result_before.to_multiset().count(x) == (if exists|bb: int|
                0 <= bb < b && kinds[bb] == x.qtype {
                cfgs0.to_multiset().count(x)
            } else {
                0
            }),
    ensures
        forall|x: QuestionSetConfig|
            #[trigger] result.to_multiset().count(x) == (if exists|bb: int|
                0 <= bb < b + 1 && kinds[bb] == x.qtype {
                cfgs0.to_multiset().count(x)
            } else {
                0
            }),
{
    broadcast use vstd::multiset::group_multiset_axioms;

    let t = kinds[b];
    crate::lemmas::lemma_concat_multiset(result_before, blocknow);
    assert forall|x: QuestionSetConfig|
        #[trigger] result.to_multiset().count(x) == (if exists|bb: int|
            0 <= bb < b + 1 && kinds[bb] == x.qtype {
            cfgs0.to_multiset().count(x)
        } else {
            0
        }) by {
        assert(result.to_multiset().count(x) == result_before.to_multiset().count(x)
            + blocknow.to_multiset().count(x));
        if x.qtype == t {
            assert(result_before.to_multiset().count(x) == 0) by {
                if exists|bb: int| 0 <= bb < b && kinds[bb] == x.qtype {
                    let bb = choose|bb: int| 0 <= bb < b && kinds[bb] == x.qtype;
                    assert(kinds[bb] != kinds[b]);
                }
            }
            assert(blocknow.to_multiset().count(x) == cfgs0.to_multiset().count(x));
            assert(kinds[b] == x.qtype);
        } else {
            assert(blocknow.to_multiset().count(x) == 0);
            if exists|bb: int| 0 <= bb < b + 1 && kinds[bb] == x.qtype {
                let bb = choose|bb: int| 0 <= bb < b + 1 && kinds[bb] == x.qtype;
                assert(bb != b);
                assert(exists|bb2: int| 0 <= bb2 < b && kinds[bb2] == x.qtype);
            }
        }
    }
}

/// After appending one kind's block, the entries still stand in kind order.
proof fn lemma_block_order(
    kinds: Seq<QuestionType>,
    b: int,
    result_before: Seq<QuestionSetConfig>,
    blocknow: Seq<QuestionSetConfig>,
    result: Seq<QuestionSetConfig>,
)
    requires
        0 <= b < kinds.len(),
        forall|a2: int, b2: int| 0 <= a2 < b2 < kinds.len() ==> kinds[a2] != kinds[b2],
        result == result_before + blocknow,
        forall|k: int| 0 <= k < blocknow.len() ==> (#[trigger] blocknow[k]).qtype == kinds[b],
        forall|k: int|
            0 <= k < result_before.len() ==> exists|bb: int|
                0 <= bb < b && kinds[bb] == (#[trigger] result_before[k]).qtype,
        forall|k: int, l: int, bb: int, bb2: int|
            #![trigger result_before[k], result_before[l], kinds[bb], kinds[bb2]]
            0 <= k < l < result_before.len() && 0 <= bb < kinds.len() && 0 <= bb2 < kinds.len()
                && kinds[bb] == result_before[k].qtype && kinds[bb2] == result_before[l].qtype
                ==> bb <= bb2,
    ensures
        forall|k: int|
            0 <= k < result.len() ==> exists|bb: int|
                0 <= bb < b + 1 && kinds[bb] == (#[trigger] result[k]).qtype,
        forall|k: int, l: int, bb: int, bb2: int|
            #![trigger result[k], result[l], kinds[bb], kinds[bb2]]
            0 <= k < l < result.len() && 0 <= bb < kinds.len() && 0 <= bb2 < kinds.len()
                && kinds[bb] == result[k].qtype && kinds[bb2] == result[l].qtype ==> bb <= bb2,
{
    assert forall|k: int|
        0 <= k < result.len() implies exists|bb: int|
        0 <= bb < b + 1 && kinds[bb] == (#[trigger] result[k]).qtype by {
        if k < result_before.len() {
            assert(result[k] == result_before[k]);
            let bb = choose|bb: int|
                0 <= bb < b && kinds[bb] == (#[trigger] result_before[k]).qtype;
            assert(kinds[bb] == result[k].qtype);
        } else {
            assert(result[k] == blocknow[k - result_before.len()]);
            assert(kinds[b] == result[k].qtype);
        }
    }
    assert forall|k: int, l: int, bb: int, bb2: int|
        #![trigger result[k], result[l], kinds[bb], kinds[bb2]]
        0 <= k < l < result.len() && 0 <= bb < kinds.len() && 0 <= bb2 < kinds.len() && kinds[bb]
            == result[k].qtype && kinds[bb2] == result[l].qtype implies bb <= bb2 by {
        if l < result_before.len() {
            assert(result[k] == result_before[k]);
            assert(result[l] == result_before[l]);
        } else if k >= result_before.len() {
            assert(result[k] == blocknow[k - result_before.len()]);
            assert(result[l] == blocknow[l - result_before.len()]);
            assert(kinds[bb] == kinds[b] && kinds[bb2] == kinds[b]);
            if bb != b {
                assert(kinds[bb] != kinds[b]);
            }
            if bb2 != b {
                assert(kinds[bb2] != kinds[b]);
            }
        } else {
            assert(result[k] == result_before[k]);
            assert(result[l] == blocknow[l - result_before.len()]);
            assert(kinds[bb2] == kinds[b]);
            if bb2 != b {
                assert(kinds[bb2] != kinds[b]);
            }
            let bbk = choose|bbk: int|
                0 <= bbk < b && kinds[bbk] == (#[trigger] result_before[k]).qtype;
            assert(kinds[bb] == kinds[bbk]);
            if bb != bbk {
                assert(kinds[bb] != kinds[bbk]);
            }
        }
    }
}

/// The distinct kinds of the configs, in order of first occurrence.
fn collect_kinds(cfgs: &Vec<QuestionSetConfig>) -> (kinds: Vec<QuestionType>)
    ensures
        forall|a: int, b: int| 0 <= a < b < kinds@.len() ==> kinds@[a] != kinds@[b],
        forall|a: int, b: int|
            0 <= a < b < kinds@.len() ==> first_index_of_type(cfgs@, #[trigger] kinds@[a])
                < first_index_of_type(cfgs@, #[trigger] kinds@[b]),
        forall|q: int|
            0 <= q < cfgs@.len() ==> exists|bb: int|
                0 <= bb < kinds@.len() && kinds@[bb] == (#[trigger] cfgs@[q]).qtype,
{
    let mut kinds: Vec<QuestionType> = Vec::new();
    let mut i: usize = 0;
    while i < cfgs.len()
        invariant
            i <= cfgs@.len(),
            forall|a: int, b: int| 0 <= a < b < kinds@.len() ==> kinds@[a] != kinds@[b],
            forall|a: int, b: int|
                0 <= a < b < kinds@.len() ==> first_index_of_type(cfgs@, #[trigger] kinds@[a])
                    < first_index_of_type(cfgs@, #[trigger] kinds@[b]),
            forall|a: int|
                0 <= a < kinds@.len() ==> 0 <= first_index_of_type(cfgs@, #[trigger] kinds@[a])
                    < i as int,
            forall|q: int|
                0 <= q < i as int ==> exists|bb: int|
                    0 <= bb < kinds@.len() && kinds@[bb] == (#[trigger] cfgs@[q]).qtype,
        decreases cfgs@.len() - i,
    {
        if !kind_listed(&kinds, cfgs[i].qtype) {
            proof {
                // This is the kind's first occurrence: every earlier config
                // has a listed kind, and this one is not listed.
                assert forall|q: int| 0 <= q < i as int implies (#[trigger] cfgs@[q]).qtype
                    != cfgs@[i as int].qtype by {
                    let bb = choose|bb: int|
                        0 <= bb < kinds@.len() && kinds@[bb] == cfgs@[q].qtype;
                }
                lemma_first_index_of_type(cfgs@, cfgs@[i as int].qtype, i as int);
            }
            let ghost kinds_before = kinds@;
            kinds.push(cfgs[i].qtype);
            proof {
                assert(kinds@ == kinds_before.push(cfgs@[i as int].qtype));
                assert forall|q: int| 0 <= q < i as int + 1 implies exists|bb: int|
                    0 <= bb < kinds@.len() && kinds@[bb] == (#[trigger] cfgs@[q]).qtype by {
                    if q < i as int {
                        let bb = choose|bb: int|
                            0 <= bb < kinds_before.len() && kinds_before[bb] == cfgs@[q].qtype;
                        assert(kinds@[bb] == cfgs@[q].qtype);
                    } else {
                        assert(kinds@[kinds@.len() - 1] == cfgs@[q].qtype);
                    }
                }
            }
        } else {
            proof {
                assert forall|q: int| 0 <= q < i as int + 1 implies exists|bb: int|
                    0 <= bb < kinds@.len() && kinds@[bb] == (#[trigger] cfgs@[q]).qtype by {
                }
            }
        }
        i = i + 1;
    }
    kinds
}

/// A shuffled block of one kind's configs holds only that kind.
proof fn lemma_block_types(
    cfgs0: Seq<QuestionSetConfig>,
    block0: Seq<QuestionSetConfig>,
    blocknow: Seq<QuestionSetConfig>,
    t: QuestionType,
)
    requires
        block0 == cfgs0.filter(type_pred(t)),
        blocknow.to_multiset() == block0.to_multiset(),
    ensures
        blocknow.to_multiset() == cfgs0.to_multiset().filter(type_pred(t)),
        forall|k: int| 0 <= k < blocknow.len() ==> (#[trigger] blocknow[k]).qtype == t,
{
    crate::lemmas::lemma_seq_filter_multiset(cfgs0, type_pred(t));
    block0.to_multiset_ensures();
    blocknow.to_multiset_ensures();
    assert forall|k: int| 0 <= k < blocknow.len() implies (#[trigger] blocknow[k]).qtype
        == t by {
        assert(blocknow.contains(blocknow[k]));
        assert(blocknow.to_multiset().count(blocknow[k]) > 0);
        assert(block0.to_multiset().count(blocknow[k]) > 0);
        assert(block0.contains(blocknow[k]));
        let k0 = choose|k0: int| 0 <= k0 < block0.len() && block0[k0] == blocknow[k];
        cfgs0.lemma_filter_pred(type_pred(t), k0);
    }
}

/// With every kind's block placed, the result is a permutation of the input
/// and its blocks stand in first-occurrence order.
proof fn lemma_normalize_final(
    cfgs0: Seq<QuestionSetConfig>,
    kinds: Seq<QuestionType>,
    result: Seq<QuestionSetConfig>,
)
    requires
        forall|a: int, b: int| 0 <= a < b < kinds.len() ==> kinds[a] != kinds[b],
        forall|a: int, b: int|
            0 <= a < b < kinds.len() ==> first_index_of_type(cfgs0, #[trigger] kinds[a])
                < first_index_of_type(cfgs0, #[trigger] kinds[b]),
        forall|q: int|
            0 <= q < cfgs0.len() ==> exists|bb: int|
                0 <= bb < kinds.len() && kinds[bb] == (#[trigger] cfgs0[q]).qtype,
        forall|x: QuestionSetConfig|
            #[trigger] result.to_multiset().count(x) == (if exists|bb: int|
                0 <= bb < kinds.len() && kinds[bb] == x.qtype {
                cfgs0.to_multiset().count(x)
            } else {
                0
            }),
        forall|k: int|
            0 <= k < result.len() ==> exists|bb: int|
                0 <= bb < kinds.len() && kinds[bb] == (#[trigger] result[k]).qtype,
        forall|k: int, l: int, bb: int, bb2: int|
            #![trigger result[k], result[l], kinds[bb], kinds[bb2]]
            0 <= k < l < result.len() && 0 <= bb < kinds.len() && 0 <= bb2 < kinds.len()
                && kinds[bb] == result[k].qtype && kinds[bb2] == result[l].qtype ==> bb <= bb2,
    ensures
        result.to_multiset() == cfgs0.to_multiset(),
        forall|i2: int, j2: int|
            0 <= i2 < j2 < result.len() && (#[trigger] result[i2]).qtype
                != (#[trigger] result[j2]).qtype ==> first_index_of_type(cfgs0, result[i2].qtype)
                < first_index_of_type(cfgs0, result[j2].qtype),
{
    cfgs0.to_multiset_ensures();
    result.to_multiset_ensures();
    assert forall|x: QuestionSetConfig|
        result.to_multiset().count(x) == cfgs0.to_multiset().count(x) by {
        if cfgs0.to_multiset().count(x) > 0 {
            assert(cfgs0.contains(x));
            let q = choose|q: int| 0 <= q < cfgs0.len() && cfgs0[q] == x;
            assert(exists|bb: int|
                0 <= bb < kinds.len() && kinds[bb] == (#[trigger] cfgs0[q]).qtype);
        }
    }
    assert(result.to_multiset() =~= cfgs0.to_multiset());
    assert forall|i2: int, j2: int|
        0 <= i2 < j2 < result.len() && (#[trigger] result[i2]).qtype
            != (#[trigger] result[j2]).qtype implies first_index_of_type(
        cfgs0,
        result[i2].qtype,
    ) < first_index_of_type(cfgs0, result[j2].qtype) by {
        let bb = choose|bb: int|
            0 <= bb < kinds.len() && kinds[bb] == (#[trigger] result[i2]).qtype;
        let bb2 = choose|bb2: int|
            0 <= bb2 < kinds.len() && kinds[bb2] == (#[trigger] result[j2]).qtype;
        assert(bb <= bb2);
        assert(bb != bb2);
    }
}

/// Normalizes the question-set configs: one contiguous block per kind, the
/// kinds in order of their first occurrence, each block the configs of its
/// kind in random order, so that sibling configs of one kind compete for
/// scarce questions in a fresh order on every attempt.  The result is a
/// permutation of the input.
#[verifier::rlimit(100)]
pub fn normalize_configs(cfgs: Vec<QuestionSetConfig>, rng: &mut rand::rngs::StdRng) -> (r: Vec<
    QuestionSetConfig,
>)
    ensures
        r@.to_multiset() == cfgs@.to_multiset(),
        forall|i: int, j: int|
            0 <= i < j < r@.len() && (#[trigger] r@[i]).qtype != (#[trigger] r@[j]).qtype
                ==> first_index_of_type(cfgs@, r@[i].qtype) < first_index_of_type(
                cfgs@,
                r@[j].qtype,
            ),
{
    broadcast use vstd::multiset::group_multiset_axioms;

    let ghost cfgs0 = cfgs@;

    // The distinct kinds, in order of their first occurrence.
    let kinds = collect_kinds(&cfgs);

    // One shuffled block per kind, in kind order.
    let mut result: Vec<QuestionSetConfig> = Vec::new();
    proof {
        result@.to_multiset_ensures();
        vstd::multiset::lemma_multiset_empty_len(result@.to_multiset());
        assert forall|x: QuestionSetConfig|
            #[trigger] result@.to_multiset().count(x) == 0 by {
            assert(result@.to_multiset() =~= Multiset::<QuestionSetConfig>::empty());
        }
    }
    let mut b: usize = 0;
    while b < kinds.len()
        invariant
            b <= kinds@.len(),
            forall|a2: int, b2: int| 0 <= a2 < b2 < kinds@.len() ==> kinds@[a2] != kinds@[b2],
            forall|a2: int, b2: int|
                0 <= a2 < b2 < kinds@.len() ==> first_index_of_type(cfgs@, #[trigger] kinds@[a2])
                    < first_index_of_type(cfgs@, #[trigger] kinds@[b2]),
            forall|q: int|
                0 <= q < cfgs@.len() ==> exists|bb: int|
                    0 <= bb < kinds@.len() && kinds@[bb] == (#[trigger] cfgs@[q]).qtype,
            forall|x: QuestionSetConfig|
                #[trigger] result@.to_multiset().count(x) == (if exists|bb: int|
                    0 <= bb < b as int && kinds@[bb] == x.qtype {
                    cfgs@.to_multiset().count(x)
                } else {
                    0
                }),
            forall|k: int|
                0 <= k < result@.len() ==> exists|bb: int|
                    0 <= bb < b as int && kinds@[bb] == (#[trigger] result@[k]).qtype,
            forall|k: int, l: int, bb: int, bb2: int|
                #![trigger result@[k], result@[l], kinds@[bb], kinds@[bb2]]
                0 <= k < l < result@.len() && 0 <= bb < kinds@.len() && 0 <= bb2 < kinds@.len()
                    && kinds@[bb] == result@[k].qtype && kinds@[bb2] == result@[l].qtype ==> bb
                    <= bb2,
        decreases kinds@.len() - b,
    {
        let t = kinds[b];
        let mut block = collect_of_type(&cfgs, t);
        let ghost block0 = block@;
        shuffle(&mut block, rng);
        let ghost result_before = result@;
        let ghost blocknow = block@;
        proof {
            lemma_block_types(cfgs0, block0, blocknow, t);
        }
        let mut bl = block;
        result.append(&mut bl);
        proof {
            assert(result@ == result_before + blocknow);
            lemma_block_counts(cfgs0, kinds@, b as int, result_before, blocknow, result@);
            lemma_block_order(kinds@, b as int, result_before, blocknow, result@);
        }
        b = b + 1;
    }

    proof {
        lemma_normalize_final(cfgs0, kinds@, result@);
    }
    result
}

} // verus!
