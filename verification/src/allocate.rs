//! The allocator: the greedy tag pass and the quota completer, working over
//! a shared mutable pool for one question-set config at a time.
use vstd::prelude::*;

use crate::model::{
    ExamError, GeneratedQuestion, GeneratedQuestionSet, Question, QuestionSet, QuestionSetConfig,
    TagConfig, answer_ids_valid, config_fulfilled, gen_qids_distinct, gen_question_valid,
    gen_set_valid, gen_sets_have_qid, has_tag, pool_has_qid, pool_wf, q_eligible,
    names_ineligible_question, qid_matches_group, question_from, set_from, tags_superset,
    wf_sets,
};

verus! {

/// The allocator's running invariant for one config `c`: the pool is a
/// well-formed descendant of the input whose questions all come from the
/// entry pool `pool0`; the chosen sets are valid for `c`, within its caps,
/// with globally distinct question ids, each taken out of `pool0` and no
/// longer present in the pool.
pub open spec fn alloc_inv(
    orig: Seq<QuestionSet>,
    pool0: Seq<QuestionSet>,
    pool: Seq<QuestionSet>,
    c: QuestionSetConfig,
    chosen: Seq<GeneratedQuestionSet>,
) -> bool {
    &&& pool_wf(pool, orig)
    &&& forall|id: u64| pool_has_qid(pool, id) ==> pool_has_qid(pool0, id)
    &&& chosen.len() <= c.number_of_set
    &&& forall|i: int|
        0 <= i < chosen.len() ==> gen_set_valid(orig, c, #[trigger] chosen[i])
            && chosen[i].questions@.len() <= c.number_of_questions
    &&& gen_qids_distinct(chosen)
    &&& forall|i: int, j: int|
        0 <= i < j < chosen.len() ==> (#[trigger] chosen[i]).id != (#[trigger] chosen[j]).id
    &&& forall|id: u64|
        gen_sets_have_qid(chosen, id) ==> pool_has_qid(pool0, id) && !pool_has_qid(pool, id)
}

/// `b` extends `a`: same sets in the same order, each with at least the
/// questions it had, unchanged.
pub open spec fn gen_set_extends(b: GeneratedQuestionSet, a: GeneratedQuestionSet) -> bool {
    &&& b.id == a.id
    &&& a.questions@.len() <= b.questions@.len()
    &&& forall|k: int| 0 <= k < a.questions@.len() ==> b.questions@[k] == a.questions@[k]
}

/// `b` extends `a` set-for-set, possibly with new sets appended.
pub open spec fn gen_seq_extends(b: Seq<GeneratedQuestionSet>, a: Seq<GeneratedQuestionSet>) -> bool {
    &&& a.len() <= b.len()
    &&& forall|i: int| 0 <= i < a.len() ==> gen_set_extends(#[trigger] b[i], a[i])
}

/// One tag config's bookkeeping: its quota only shrank, its group stayed,
/// and a finite witness set of chosen, group-matching question ids accounts
/// for every decrement.
pub open spec fn tag_entry_ok(
    orig: Seq<QuestionSet>,
    entry0: TagConfig,
    entry: TagConfig,
    w_t: Set<u64>,
    chosen: Seq<GeneratedQuestionSet>,
) -> bool {
    &&& entry.group == entry0.group
    &&& entry.number_of_questions <= entry0.number_of_questions
    &&& w_t.finite()
    &&& w_t.len() + entry.number_of_questions >= entry0.number_of_questions
    &&& forall|id: u64|
        w_t.contains(id) ==> gen_sets_have_qid(chosen, id) && qid_matches_group(
            orig,
            id,
            entry0.group@,
        )
}

/// The tag bookkeeping invariant, entry by entry.
pub open spec fn tags_ok(
    orig: Seq<QuestionSet>,
    tags0: Seq<TagConfig>,
    tags: Seq<TagConfig>,
    w: Seq<Set<u64>>,
    chosen: Seq<GeneratedQuestionSet>,
) -> bool {
    &&& tags.len() == tags0.len()
    &&& w.len() == tags0.len()
    &&& forall|t: int|
        0 <= t < tags.len() ==> tag_entry_ok(orig, tags0[t], #[trigger] tags[t], w[t], chosen)
}

/// Chosen question ids stay chosen when the sets only grow.
pub proof fn lemma_gen_qids_monotone(
    a: Seq<GeneratedQuestionSet>,
    b: Seq<GeneratedQuestionSet>,
)
    requires
        gen_seq_extends(b, a),
    ensures
        forall|id: u64| gen_sets_have_qid(a, id) ==> gen_sets_have_qid(b, id),
{
    assert forall|id: u64| gen_sets_have_qid(a, id) implies gen_sets_have_qid(b, id) by {
        let (i, k) = choose|i: int, k: int|
            0 <= i < a.len() && 0 <= k < a[i].questions@.len() && a[i].questions@[k].id == id;
        assert(gen_set_extends(b[i], a[i]));
        assert(b[i].questions@[k].id == id);
    }
}

/// Extension is transitive.
pub proof fn lemma_gen_extends_trans(
    a: Seq<GeneratedQuestionSet>,
    b: Seq<GeneratedQuestionSet>,
    d: Seq<GeneratedQuestionSet>,
)
    requires
        gen_seq_extends(b, a),
        gen_seq_extends(d, b),
    ensures
        gen_seq_extends(d, a),
{
    assert forall|i: int| 0 <= i < a.len() implies gen_set_extends(#[trigger] d[i], a[i]) by {
        assert(gen_set_extends(b[i], a[i]));
        assert(gen_set_extends(d[i], b[i]));
    }
}

/// Tests whether `tags` carries every tag of `group`.
pub fn tags_superset_exec(tags: &Vec<String>, group: &Vec<String>) -> (b: bool)
    ensures
        b == tags_superset(tags@, group@),
{
    let mut j: usize = 0;
    while j < group.len()
        invariant
            j <= group@.len(),
            forall|jj: int| 0 <= jj < j as int ==> has_tag(tags@, #[trigger] group@[jj]@),
        decreases group@.len() - j,
    {
        let mut found = false;
        let mut i: usize = 0;
        while i < tags.len()
            invariant
                i <= tags@.len(),
                found ==> has_tag(tags@, group@[j as int]@),
                !found ==> forall|ii: int| 0 <= ii < i as int ==> tags@[ii]@ != group@[j as int]@,
            decreases tags@.len() - i,
        {
            if !found {
                if tags[i] == group[j] {
                    found = true;
                }
            }
            i = i + 1;
        }
        if !found {
            proof {
                assert(!has_tag(tags@, group@[j as int]@));
            }
            return false;
        }
        j = j + 1;
    }
    true
}

/// Finds the chosen set with the given id, if any.
fn find_gen_set(chosen: &Vec<GeneratedQuestionSet>, id: u64) -> (r: Option<usize>)
    ensures
        match r {
            Some(x) => x < chosen@.len() && chosen@[x as int].id == id,
            None => forall|x: int| 0 <= x < chosen@.len() ==> (#[trigger] chosen@[x]).id != id,
        },
{
    let mut x: usize = 0;
    while x < chosen.len()
        invariant
            x <= chosen@.len(),
            forall|xx: int| 0 <= xx < x as int ==> (#[trigger] chosen@[xx]).id != id,
        decreases chosen@.len() - x,
    {
        if chosen[x].id == id {
            return Some(x);
        }
        x = x + 1;
    }
    None
}

/// Finds the pool set with the given id, if any.
fn find_pool_set(pool: &Vec<QuestionSet>, id: u64) -> (r: Option<usize>)
    ensures
        match r {
            Some(x) => x < pool@.len() && pool@[x as int].id == id,
            None => forall|x: int| 0 <= x < pool@.len() ==> (#[trigger] pool@[x]).id != id,
        },
{
    let mut x: usize = 0;
    while x < pool.len()
        invariant
            x <= pool@.len(),
            forall|xx: int| 0 <= xx < x as int ==> (#[trigger] pool@[xx]).id != id,
        decreases pool@.len() - x,
    {
        if pool[x].id == id {
            return Some(x);
        }
        x = x + 1;
    }
    None
}

/// Commits one selected question: removes it from the pool and places it in
/// the chosen set named by `slot` (an existing set with room, or a fresh
/// one).
fn commit_selected(
    pool: &mut Vec<QuestionSet>,
    chosen: &mut Vec<GeneratedQuestionSet>,
    si: usize,
    qi: usize,
    gq: GeneratedQuestion,
    slot: Option<usize>,
    c: &QuestionSetConfig,
    Ghost(orig): Ghost<Seq<QuestionSet>>,
    Ghost(pool0): Ghost<Seq<QuestionSet>>,
)
    requires
        wf_sets(orig),
        alloc_inv(orig, pool0, old(pool)@, *c, old(chosen)@),
        si < old(pool)@.len(),
        qi < old(pool)@[si as int].questions@.len(),
        gq.id == old(pool)@[si as int].questions@[qi as int].id,
        answer_ids_valid(old(pool)@[si as int].questions@[qi as int], *c, gq.answers@),
        match slot {
            Some(x) => x < old(chosen)@.len() && old(chosen)@[x as int].id == old(pool)@[si as int].id && old(chosen)@[x as int].questions@.len() < c.number_of_questions,
            None => (forall|x: int|
                0 <= x < old(chosen)@.len() ==> (#[trigger] old(chosen)@[x]).id != old(pool)@[si as int].id) && old(chosen)@.len() < c.number_of_set
                && c.number_of_questions >= 1 && old(pool)@[si as int].qtype == c.qtype,
        },
    ensures
        alloc_inv(orig, pool0, final(pool)@, *c, final(chosen)@),
        final(pool)@.len() == old(pool)@.len(),
        forall|i: int|
            0 <= i < final(pool)@.len() && i != si as int ==> final(pool)@[i] == old(pool)@[i],
        final(pool)@[si as int].id == old(pool)@[si as int].id,
        final(pool)@[si as int].qtype == old(pool)@[si as int].qtype,
        final(pool)@[si as int].questions@ == old(pool)@[si as int].questions@.remove(qi as int),
        gen_seq_extends(final(chosen)@, old(chosen)@),
        match slot {
            Some(x) => final(chosen)@.len() == old(chosen)@.len() && (forall|i: int|
                0 <= i < final(chosen)@.len() && i != x as int ==> final(chosen)@[i] == old(chosen)@[i]) && final(chosen)@[x as int].id == old(chosen)@[x as int].id
                && final(chosen)@[x as int].questions@ == old(chosen)@[x as int].questions@.push(
                gq,
            ),
            None => final(chosen)@.len() == old(chosen)@.len() + 1 && (forall|i: int|
                0 <= i < old(chosen)@.len() ==> final(chosen)@[i] == old(chosen)@[i]) && final(chosen)@.last().id == old(pool)@[si as int].id && final(chosen)@.last().questions@ == seq![
                gq,
            ],
        },
        gen_sets_have_qid(final(chosen)@, gq.id),
{
    let ghost poolb = pool@;
    let ghost chosenb = chosen@;
    let ghost pq = pool@[si as int].questions@[qi as int];
    let set_id = pool[si].id;

    proof {
        // The committed id is in the pool, hence not yet chosen.
        assert(pool_has_qid(poolb, gq.id));
        if gen_sets_have_qid(chosenb, gq.id) {
            assert(!pool_has_qid(poolb, gq.id));
        }
        assert(!gen_sets_have_qid(chosenb, gq.id));
    }

    let _removed = pool[si].questions.remove(qi);

    proof {
        let newpool = pool@;
        // The pool stays well-formed and only shrinks.
        assert forall|i: int| 0 <= i < newpool.len() implies set_from(
            #[trigger] newpool[i],
            orig,
        ) by {
            if i == si as int {
                let j = choose|j: int|
                    0 <= j < orig.len() && (#[trigger] orig[j]).id == poolb[si as int].id
                        && orig[j].qtype == poolb[si as int].qtype && forall|k: int|
                        0 <= k < poolb[si as int].questions@.len() ==> question_from(
                            #[trigger] poolb[si as int].questions@[k],
                            orig[j],
                        );
                assert forall|k: int| 0 <= k < newpool[i].questions@.len() implies question_from(
                    #[trigger] newpool[i].questions@[k],
                    orig[j],
                ) by {
                    if k < qi as int {
                        assert(newpool[i].questions@[k] == poolb[si as int].questions@[k]);
                    } else {
                        assert(newpool[i].questions@[k] == poolb[si as int].questions@[k + 1]);
                    }
                }
            }
        }
        assert forall|i: int, k: int, j: int, l: int|
            0 <= i < newpool.len() && 0 <= k < newpool[i].questions@.len() && 0 <= j
                < newpool.len() && 0 <= l < newpool[j].questions@.len() && (i != j || k != l)
            implies (#[trigger] newpool[i].questions@[k]).id
            != (#[trigger] newpool[j].questions@[l]).id by {
            let k2: int = if i == si as int && k >= qi as int {
                k + 1
            } else {
                k
            };
            let l2: int = if j == si as int && l >= qi as int {
                l + 1
            } else {
                l
            };
            assert(newpool[i].questions@[k] == poolb[i].questions@[k2]);
            assert(newpool[j].questions@[l] == poolb[j].questions@[l2]);
        }
        assert forall|i: int|
            0 <= i < newpool.len() implies crate::model::set_answer_ids_distinct(
            #[trigger] newpool[i],
        ) by {
            assert forall|k: int|
                0 <= k < newpool[i].questions@.len() implies crate::model::answer_ids_distinct(
                #[trigger] newpool[i].questions@[k],
            ) by {
                if i == si as int {
                    if k < qi as int {
                        assert(newpool[i].questions@[k] == poolb[i].questions@[k]);
                    } else {
                        assert(newpool[i].questions@[k] == poolb[i].questions@[k + 1]);
                    }
                } else {
                    assert(newpool[i].questions@[k] == poolb[i].questions@[k]);
                }
            }
        }
        assert forall|id: u64| pool_has_qid(newpool, id) implies pool_has_qid(poolb, id) by {
            let (i, k) = choose|i: int, k: int|
                0 <= i < newpool.len() && 0 <= k < newpool[i].questions@.len()
                    && newpool[i].questions@[k].id == id;
            if i == si as int && k >= qi as int {
                assert(poolb[i].questions@[k + 1].id == id);
            } else {
                assert(poolb[i].questions@[k].id == id);
            }
        }
        // The committed id is gone from the pool.
        assert forall|id: u64| pool_has_qid(newpool, id) implies id != gq.id by {
            let (i, k) = choose|i: int, k: int|
                0 <= i < newpool.len() && 0 <= k < newpool[i].questions@.len()
                    && newpool[i].questions@[k].id == id;
            let k2: int = if i == si as int && k >= qi as int {
                k + 1
            } else {
                k
            };
            assert(newpool[i].questions@[k] == poolb[i].questions@[k2]);
            assert((i, k2) != (si as int, qi as int));
            assert(poolb[i].questions@[k2].id != poolb[si as int].questions@[qi as int].id);
        }
    }

    // Place the question.
    match slot {
        Some(x) => {
            chosen[x].questions.push(gq);
            proof {
                let newchosen = chosen@;
                // The updated set stays valid for c.
                let j = choose|j: int|
                    0 <= j < orig.len() && (#[trigger] orig[j]).id == poolb[si as int].id
                        && orig[j].qtype == poolb[si as int].qtype && forall|k: int|
                        0 <= k < poolb[si as int].questions@.len() ==> question_from(
                            #[trigger] poolb[si as int].questions@[k],
                            orig[j],
                        );
                assert(question_from(pq, orig[j]));
                let m = choose|m: int|
                    0 <= m < orig[j].questions@.len() && (#[trigger] orig[j].questions@[m]).id
                        == pq.id && !orig[j].questions@[m].deprecated && !pq.deprecated
                        && pq.tags == orig[j].questions@[m].tags
                        && pq.answers@.to_multiset()
                        == orig[j].questions@[m].answers@.to_multiset();
                crate::lemmas::lemma_answer_ids_valid_transfer(
                    pq,
                    orig[j].questions@[m],
                    *c,
                    gq.answers@,
                );
                assert(gen_question_valid(orig[j], *c, gq));
                let j1 = choose|j1: int|
                    0 <= j1 < orig.len() && (#[trigger] orig[j1]).id == chosenb[x as int].id
                        && orig[j1].qtype == c.qtype && forall|k: int|
                        0 <= k < chosenb[x as int].questions@.len() ==> gen_question_valid(
                            orig[j1],
                            *c,
                            #[trigger] chosenb[x as int].questions@[k],
                        );
                assert(orig[j1].id == orig[j].id);
                assert(j1 == j);
                assert forall|k: int|
                    0 <= k < newchosen[x as int].questions@.len() implies gen_question_valid(
                    orig[j1],
                    *c,
                    #[trigger] newchosen[x as int].questions@[k],
                ) by {
                    if k < chosenb[x as int].questions@.len() {
                        assert(newchosen[x as int].questions@[k]
                            == chosenb[x as int].questions@[k]);
                    } else {
                        assert(newchosen[x as int].questions@[k] == gq);
                    }
                }
                assert(gen_set_valid(orig, *c, newchosen[x as int]));
                assert forall|i: int|
                    0 <= i < newchosen.len() implies gen_set_valid(
                    orig,
                    *c,
                    #[trigger] newchosen[i],
                ) && newchosen[i].questions@.len() <= c.number_of_questions by {
                    if i != x as int {
                        assert(newchosen[i] == chosenb[i]);
                    }
                }
                // Question ids stay globally distinct.
                assert forall|i: int, k: int, j2: int, l: int|
                    0 <= i < newchosen.len() && 0 <= k < newchosen[i].questions@.len() && 0 <= j2
                        < newchosen.len() && 0 <= l < newchosen[j2].questions@.len() && (i != j2
                        || k != l) implies (#[trigger] newchosen[i].questions@[k]).id
                    != (#[trigger] newchosen[j2].questions@[l]).id by {
                    let new_i = i == x as int && k == chosenb[x as int].questions@.len();
                    let new_j = j2 == x as int && l == chosenb[x as int].questions@.len();
                    if new_i && !new_j {
                        assert(newchosen[i].questions@[k] == gq);
                        assert(newchosen[j2].questions@[l] == chosenb[j2].questions@[l]);
                        assert(gen_sets_have_qid(chosenb, chosenb[j2].questions@[l].id));
                    } else if !new_i && new_j {
                        assert(newchosen[j2].questions@[l] == gq);
                        assert(newchosen[i].questions@[k] == chosenb[i].questions@[k]);
                        assert(gen_sets_have_qid(chosenb, chosenb[i].questions@[k].id));
                    } else if !new_i && !new_j {
                        assert(newchosen[i].questions@[k] == chosenb[i].questions@[k]);
                        assert(newchosen[j2].questions@[l] == chosenb[j2].questions@[l]);
                    }
                }
                // Chosen ids were taken from the entry pool and are gone now.
                assert forall|id: u64| gen_sets_have_qid(newchosen, id) implies pool_has_qid(
                    pool0,
                    id,
                ) && !pool_has_qid(pool@, id) by {
                    let (i, k) = choose|i: int, k: int|
                        0 <= i < newchosen.len() && 0 <= k < newchosen[i].questions@.len()
                            && newchosen[i].questions@[k].id == id;
                    if i == x as int && k == chosenb[x as int].questions@.len() {
                        assert(id == gq.id);
                        assert(pool_has_qid(poolb, id));
                    } else {
                        assert(newchosen[i].questions@[k] == chosenb[i].questions@[k]);
                        assert(gen_sets_have_qid(chosenb, id));
                    }
                }
                assert(gen_sets_have_qid(chosen@, gq.id)) by {
                    assert(chosen@[x as int].questions@[chosenb[x as int].questions@.len() as int]
                        == gq);
                }
            }
        },
        None => {
            let mut qs: Vec<GeneratedQuestion> = Vec::new();
            qs.push(gq);
            chosen.push(GeneratedQuestionSet { id: set_id, questions: qs });
            proof {
                let newchosen = chosen@;
                let j = choose|j: int|
                    0 <= j < orig.len() && (#[trigger] orig[j]).id == poolb[si as int].id
                        && orig[j].qtype == poolb[si as int].qtype && forall|k: int|
                        0 <= k < poolb[si as int].questions@.len() ==> question_from(
                            #[trigger] poolb[si as int].questions@[k],
                            orig[j],
                        );
                assert(question_from(pq, orig[j]));
                let m = choose|m: int|
                    0 <= m < orig[j].questions@.len() && (#[trigger] orig[j].questions@[m]).id
                        == pq.id && !orig[j].questions@[m].deprecated && !pq.deprecated
                        && pq.tags == orig[j].questions@[m].tags
                        && pq.answers@.to_multiset()
                        == orig[j].questions@[m].answers@.to_multiset();
                crate::lemmas::lemma_answer_ids_valid_transfer(
                    pq,
                    orig[j].questions@[m],
                    *c,
                    gq.answers@,
                );
                assert(gen_question_valid(orig[j], *c, gq));
                assert(newchosen.last().questions@ =~= seq![gq]);
                assert(gen_set_valid(orig, *c, newchosen.last()));
                assert forall|i: int|
                    0 <= i < newchosen.len() implies gen_set_valid(
                    orig,
                    *c,
                    #[trigger] newchosen[i],
                ) && newchosen[i].questions@.len() <= c.number_of_questions by {
                    if i < chosenb.len() {
                        assert(newchosen[i] == chosenb[i]);
                    }
                }
                assert forall|i: int, k: int, j2: int, l: int|
                    0 <= i < newchosen.len() && 0 <= k < newchosen[i].questions@.len() && 0 <= j2
                        < newchosen.len() && 0 <= l < newchosen[j2].questions@.len() && (i != j2
                        || k != l) implies (#[trigger] newchosen[i].questions@[k]).id
                    != (#[trigger] newchosen[j2].questions@[l]).id by {
                    let new_i = i == chosenb.len();
                    let new_j = j2 == chosenb.len();
                    if new_i && !new_j {
                        assert(newchosen[i].questions@[k] == gq);
                        assert(gen_sets_have_qid(chosenb, chosenb[j2].questions@[l].id));
                    } else if !new_i && new_j {
                        assert(newchosen[j2].questions@[l] == gq);
                        assert(gen_sets_have_qid(chosenb, chosenb[i].questions@[k].id));
                    }
                }
                assert forall|id: u64| gen_sets_have_qid(newchosen, id) implies pool_has_qid(
                    pool0,
                    id,
                ) && !pool_has_qid(pool@, id) by {
                    let (i, k) = choose|i: int, k: int|
                        0 <= i < newchosen.len() && 0 <= k < newchosen[i].questions@.len()
                            && newchosen[i].questions@[k].id == id;
                    if i == chosenb.len() {
                        assert(id == gq.id);
                        assert(pool_has_qid(poolb, id));
                    } else {
                        assert(gen_sets_have_qid(chosenb, id));
                    }
                }
                assert(gen_sets_have_qid(chosen@, gq.id)) by {
                    assert(chosen@.last().questions@[0] == gq);
                }
            }
        },
    }
}

/// A pool state on which the tag pass alone is certain to succeed, whatever
/// the shuffles were: one single config asking for one set, one tag config,
/// and exactly one pool set of the config's kind, all of whose questions are
/// eligible and carry the tag group, with enough of them to fill the set and
/// to cover the tag quota.
pub open spec fn saturating_set(
    pool: Seq<QuestionSet>,
    tags: Seq<TagConfig>,
    c: QuestionSetConfig,
    s: int,
) -> bool {
    &&& 0 <= s < pool.len()
    &&& pool[s].qtype == c.qtype
    &&& forall|i: int| 0 <= i < pool.len() && i != s ==> (#[trigger] pool[i]).qtype != c.qtype
    &&& pool[s].questions@.len() >= c.number_of_questions
    &&& c.number_of_set == 1
    &&& c.number_of_questions >= 1
    &&& forall|k: int|
        0 <= k < pool[s].questions@.len() ==> q_eligible(#[trigger] pool[s].questions@[k], c)
            && tags_superset(pool[s].questions@[k].tags@, tags[0].group@)
    &&& tags.len() == 1
    &&& tags[0].number_of_questions >= 1
    &&& tags[0].number_of_questions <= c.number_of_questions
}

/// The tag pass is done with a saturating fit: the config exactly met and
/// the tag quota exhausted.
pub open spec fn sat_done(
    c: QuestionSetConfig,
    tags: Seq<TagConfig>,
    chosen: Seq<GeneratedQuestionSet>,
) -> bool {
    &&& config_fulfilled(c, chosen)
    &&& tags.len() == 1
    &&& tags[0].number_of_questions == 0
}

/// Mid-scan state of the tag pass on a saturating fit: only the saturating
/// set has been consumed, question by question into one chosen set, the tag
/// quota keeping pace.
pub open spec fn sat_progress(
    pool_e: Seq<QuestionSet>,
    tags_e: Seq<TagConfig>,
    c: QuestionSetConfig,
    s: int,
    pool: Seq<QuestionSet>,
    tags: Seq<TagConfig>,
    chosen: Seq<GeneratedQuestionSet>,
    qi: int,
) -> bool {
    let l: int = if chosen.len() == 0 {
        0
    } else {
        chosen[0].questions@.len() as int
    };
    &&& pool.len() == pool_e.len()
    &&& 0 <= s < pool.len()
    &&& forall|i: int| 0 <= i < pool.len() && i != s ==> pool[i] == pool_e[i]
    &&& pool[s].id == pool_e[s].id
    &&& pool[s].qtype == c.qtype
    &&& forall|k: int|
        0 <= k < pool[s].questions@.len() ==> q_eligible(#[trigger] pool[s].questions@[k], c)
            && tags_superset(pool[s].questions@[k].tags@, tags_e[0].group@)
    &&& chosen.len() <= 1
    &&& (chosen.len() == 1 ==> chosen[0].id == pool[s].id)
    &&& l + pool[s].questions@.len() == pool_e[s].questions@.len()
    &&& l <= c.number_of_questions
    &&& (l < c.number_of_questions ==> qi == 0)
    &&& tags.len() == tags_e.len()
    &&& tags[0].number_of_questions == (if l >= tags_e[0].number_of_questions {
        0
    } else {
        tags_e[0].number_of_questions - l
    })
}

/// Commits to the books: after one group-matching question is chosen, the
/// decremented quota is still accounted for by the grown witness set.
proof fn lemma_tags_ok_after_commit(
    orig: Seq<QuestionSet>,
    tags0: Seq<TagConfig>,
    tags_old: Seq<TagConfig>,
    tags_new: Seq<TagConfig>,
    w_old: Seq<Set<u64>>,
    w_new: Seq<Set<u64>>,
    chosen_old: Seq<GeneratedQuestionSet>,
    chosen_new: Seq<GeneratedQuestionSet>,
    ti: int,
    id: u64,
)
    requires
        tags_ok(orig, tags0, tags_old, w_old, chosen_old),
        gen_seq_extends(chosen_new, chosen_old),
        0 <= ti < tags_old.len(),
        tags_new.len() == tags_old.len(),
        forall|t: int| 0 <= t < tags_new.len() && t != ti ==> tags_new[t] == tags_old[t],
        tags_new[ti].group == tags_old[ti].group,
        tags_old[ti].number_of_questions > 0 ==> tags_new[ti].number_of_questions
            == tags_old[ti].number_of_questions - 1,
        tags_old[ti].number_of_questions == 0 ==> tags_new[ti].number_of_questions == 0,
        w_new == w_old.update(ti, w_old[ti].insert(id)),
        gen_sets_have_qid(chosen_new, id),
        qid_matches_group(orig, id, tags0[ti].group@),
        !gen_sets_have_qid(chosen_old, id),
    ensures
        tags_ok(orig, tags0, tags_new, w_new, chosen_new),
{
    broadcast use vstd::set::group_set_axioms;

    lemma_gen_qids_monotone(chosen_old, chosen_new);
    assert(tag_entry_ok(orig, tags0[ti], tags_old[ti], w_old[ti], chosen_old));
    if w_old[ti].contains(id) {
        assert(gen_sets_have_qid(chosen_old, id));
        assert(false);
    }
    assert(w_new[ti] == w_old[ti].insert(id));
    assert(w_new[ti].len() == w_old[ti].len() + 1);
    assert forall|t: int| 0 <= t < tags_new.len() implies tag_entry_ok(
        orig,
        tags0[t],
        #[trigger] tags_new[t],
        w_new[t],
        chosen_new,
    ) by {
        assert(tag_entry_ok(orig, tags0[t], tags_old[t], w_old[t], chosen_old));
        if t == ti {
            assert forall|id2: u64| w_new[t].contains(id2) implies gen_sets_have_qid(
                chosen_new,
                id2,
            ) && qid_matches_group(orig, id2, tags0[t].group@) by {
                if id2 != id {
                    assert(w_old[ti].contains(id2));
                    assert(gen_sets_have_qid(chosen_old, id2));
                    assert(gen_sets_have_qid(chosen_new, id2));
                } else {
                    assert(gen_sets_have_qid(chosen_new, id));
                }
            }
        } else {
            assert(w_new[t] == w_old[t]);
            assert forall|id2: u64| w_new[t].contains(id2) implies gen_sets_have_qid(
                chosen_new,
                id2,
            ) && qid_matches_group(orig, id2, tags0[t].group@) by {
                assert(w_old[t].contains(id2));
                assert(gen_sets_have_qid(chosen_old, id2));
                assert(gen_sets_have_qid(chosen_new, id2));
            }
        }
    }
}

/// The greedy tag pass for one config: for each tag config, scan the pool's
/// matching sets for unconsumed questions carrying the whole tag group, and
/// commit eligible ones until the config's caps are reached, decrementing
/// each served tag quota.
fn tag_pass(
    pool: &mut Vec<QuestionSet>,
    tags: &mut Vec<TagConfig>,
    chosen: &mut Vec<GeneratedQuestionSet>,
    c: &QuestionSetConfig,
    rng: &mut rand::rngs::StdRng,
    Ghost(orig): Ghost<Seq<QuestionSet>>,
    Ghost(pool0): Ghost<Seq<QuestionSet>>,
    Ghost(tags0): Ghost<Seq<TagConfig>>,
    Ghost(w_in): Ghost<Seq<Set<u64>>>,
) -> (w: Ghost<Seq<Set<u64>>>)
    requires
        wf_sets(orig),
        alloc_inv(orig, pool0, old(pool)@, *c, old(chosen)@),
        tags_ok(orig, tags0, old(tags)@, w_in, old(chosen)@),
    ensures
        alloc_inv(orig, pool0, final(pool)@, *c, final(chosen)@),
        tags_ok(orig, tags0, final(tags)@, w@, final(chosen)@),
        gen_seq_extends(final(chosen)@, old(chosen)@),
        (old(chosen)@.len() == 0 && exists|s: int|
            saturating_set(old(pool)@, old(tags)@, *c, s)) ==> sat_done(
            *c,
            final(tags)@,
            final(chosen)@,
        ),
{
    let ghost chosen_in = chosen@;
    let ghost mut w = w_in;
    let ghost sat = old(chosen)@.len() == 0 && exists|s: int|
        saturating_set(old(pool)@, old(tags)@, *c, s);
    let ghost sw: int = if sat {
        choose|s: int| saturating_set(old(pool)@, old(tags)@, *c, s)
    } else {
        0
    };
    proof {
        if sat {
            assert(saturating_set(old(pool)@, old(tags)@, *c, sw));
        }
    }
    let mut ti: usize = 0;
    while ti < tags.len()
        invariant
            alloc_inv(orig, pool0, pool@, *c, chosen@),
            tags_ok(orig, tags0, tags@, w, chosen@),
            gen_seq_extends(chosen@, chosen_in),
            sat ==> saturating_set(old(pool)@, old(tags)@, *c, sw),
            sat ==> (if ti == 0 {
                pool@ == old(pool)@ && chosen@ == old(chosen)@ && tags@ == old(tags)@
            } else {
                sat_done(*c, tags@, chosen@)
            }),
        decreases tags@.len() - ti,
    {
        let mut si: usize = 0;
        while si < pool.len()
            invariant
                ti < tags@.len(),
                alloc_inv(orig, pool0, pool@, *c, chosen@),
                tags_ok(orig, tags0, tags@, w, chosen@),
                gen_seq_extends(chosen@, chosen_in),
                sat ==> saturating_set(old(pool)@, old(tags)@, *c, sw),
                sat && ti == 0 ==> (if si as int <= sw {
                    pool@ == old(pool)@ && chosen@ == old(chosen)@ && tags@ == old(tags)@
                } else {
                    sat_done(*c, tags@, chosen@)
                }),
                sat && ti >= 1 ==> sat_done(*c, tags@, chosen@),
            decreases pool@.len() - si,
        {
            let quota = tags[ti].number_of_questions;
            if pool[si].qtype == c.qtype && pool[si].questions.len() >= c.number_of_questions
                && quota > 0 {
                let ghost plen = pool@.len();
                let mut qi: usize = 0;
                while qi < pool[si].questions.len()
                    invariant
                        ti < tags@.len(),
                        si < pool@.len(),
                        pool@.len() == plen,
                        pool@[si as int].qtype == c.qtype,
                        sat ==> saturating_set(old(pool)@, old(tags)@, *c, sw),
                        sat && ti == 0 ==> si as int == sw && sat_progress(
                            old(pool)@,
                            old(tags)@,
                            *c,
                            sw,
                            pool@,
                            tags@,
                            chosen@,
                            qi as int,
                        ),
                        alloc_inv(orig, pool0, pool@, *c, chosen@),
                        tags_ok(orig, tags0, tags@, w, chosen@),
                        gen_seq_extends(chosen@, chosen_in),
                    decreases pool@[si as int].questions@.len() - qi,
                {
                    let mut committed = false;
                    let group_matches = tags_superset_exec(
                        &pool[si].questions[qi].tags,
                        &tags[ti].group,
                    );
                    if group_matches {
                        let nc = crate::answers::count_correct(&pool[si].questions[qi].answers);
                        let ni = crate::answers::count_incorrect(&pool[si].questions[qi].answers);
                        if c.number_of_correct_answers <= nc && c.number_of_incorrect_answers
                            <= ni {
                            let slot = find_gen_set(&chosen, pool[si].id);
                            let has_room = match slot {
                                Some(x) => chosen[x].questions.len() < c.number_of_questions,
                                None => chosen.len() < c.number_of_set && c.number_of_questions
                                    >= 1,
                            };
                            if has_room {
                                let ghost pq = pool@[si as int].questions@[qi as int];
                                let ghost pool_before = pool@;
                                proof {
                                    assert(q_eligible(pq, *c));
                                }
                                let sel = crate::answers::select_answers(
                                    &pool[si].questions[qi],
                                    c,
                                    rng,
                                );
                                let gq = match sel {
                                    Ok(g) => g,
                                    Err(_) => {
                                        proof {
                                            assert(false);
                                        }
                                        GeneratedQuestion { id: 0, answers: Vec::new() }
                                    },
                                };
                                let ghost chosen_before = chosen@;
                                let ghost tags_before = tags@;
                                commit_selected(
                                    pool,
                                    chosen,
                                    si,
                                    qi,
                                    gq,
                                    slot,
                                    c,
                                    Ghost(orig),
                                    Ghost(pool0),
                                );
                                let cur = tags[ti].number_of_questions;
                                if cur > 0 {
                                    decrement_tag(tags, ti);
                                }
                                proof {
                                    assert(gen_seq_extends(chosen@, chosen_before));
                                    // The committed question matches the tag group.
                                    assert(set_from(pool_before[si as int], orig));
                                    let j = choose|j: int|
                                        0 <= j < orig.len() && (#[trigger] orig[j]).id
                                            == pool_before[si as int].id && orig[j].qtype
                                            == pool_before[si as int].qtype && forall|k: int|
                                            0 <= k < pool_before[si as int].questions@.len()
                                                ==> question_from(
                                                #[trigger] pool_before[si as int].questions@[k],
                                                orig[j],
                                            );
                                    assert(question_from(pq, orig[j]));
                                    assert(tags_superset(pq.tags@, tags0[ti as int].group@));
                                    lemma_commit_matches_group(
                                        orig,
                                        pool0,
                                        chosen_before,
                                        pq,
                                        gq.id,
                                        tags0[ti as int].group@,
                                    );
                                    let ghost w_before = w;
                                    w = w.update(ti as int, w[ti as int].insert(gq.id));
                                    if gen_sets_have_qid(chosen_before, gq.id) {
                                        assert(!pool_has_qid(pool_before, gq.id));
                                        assert(false);
                                    }
                                    lemma_tags_ok_after_commit(
                                        orig,
                                        tags0,
                                        tags_before,
                                        tags@,
                                        w_before,
                                        w,
                                        chosen_before,
                                        chosen@,
                                        ti as int,
                                        gq.id,
                                    );
                                    lemma_gen_extends_trans(chosen_in, chosen_before, chosen@);
                                }
                                committed = true;
                            }
                        }
                    }
                    if !committed {
                        qi = qi + 1;
                    }
                }
                proof {
                    if sat && ti == 0 {
                        // The scan stopped: the slot is full, for the set
                        // cannot have run dry before that.
                        let l: int = if chosen@.len() == 0 {
                            0
                        } else {
                            chosen@[0].questions@.len() as int
                        };
                        if l < c.number_of_questions {
                            assert(qi as int == 0);
                            assert(pool@[sw].questions@.len() == 0);
                            assert(l == old(pool)@[sw].questions@.len());
                            assert(false);
                        }
                        assert(l == c.number_of_questions);
                        assert(chosen@.len() == 1);
                        assert(config_fulfilled(*c, chosen@));
                        assert(tags@[0].number_of_questions == 0);
                        assert(sat_done(*c, tags@, chosen@));
                    }
                }
            }
            si = si + 1;
        }
        ti = ti + 1;
    }
    Ghost(w)
}

/// Decrements one tag quota, leaving the rest untouched.
fn decrement_tag(tags: &mut Vec<TagConfig>, ti: usize)
    requires
        ti < old(tags)@.len(),
        old(tags)@[ti as int].number_of_questions > 0,
    ensures
        final(tags)@.len() == old(tags)@.len(),
        forall|t: int|
            0 <= t < final(tags)@.len() && t != ti as int ==> final(tags)@[t] == old(tags)@[t],
        final(tags)@[ti as int].group == old(tags)@[ti as int].group,
        final(tags)@[ti as int].number_of_questions == old(tags)@[ti as int].number_of_questions
            - 1,
{
    let cur = tags[ti].number_of_questions;
    tags[ti].number_of_questions = cur - 1;
}

/// A question committed from the pool matches the tag group its tags cover.
proof fn lemma_commit_matches_group(
    orig: Seq<QuestionSet>,
    pool0: Seq<QuestionSet>,
    chosen: Seq<GeneratedQuestionSet>,
    pq: Question,
    id: u64,
    group: Seq<String>,
)
    requires
        id == pq.id,
        tags_superset(pq.tags@, group),
        exists|j: int| 0 <= j < orig.len() && question_from(pq, #[trigger] orig[j]),
    ensures
        qid_matches_group(orig, id, group),
{
    let j = choose|j: int| 0 <= j < orig.len() && question_from(pq, #[trigger] orig[j]);
    let m = choose|m: int|
        0 <= m < orig[j].questions@.len() && (#[trigger] orig[j].questions@[m]).id == pq.id
            && !orig[j].questions@[m].deprecated && !pq.deprecated && pq.tags
            == orig[j].questions@[m].tags && pq.answers@.to_multiset()
            == orig[j].questions@[m].answers@.to_multiset();
    assert(orig[j].questions@[m].tags@ == pq.tags@);
    assert(tags_superset(orig[j].questions@[m].tags@, group));
}

/// The predicate "this question can serve config `c`".
pub open spec fn eligible_pred(c: QuestionSetConfig) -> spec_fn(Question) -> bool {
    |q: Question| q_eligible(q, c)
}

/// Counts the questions of a set that can serve config `c`.
fn count_eligible(qs: &Vec<Question>, c: &QuestionSetConfig) -> (n: usize)
    ensures
        n == qs@.filter(eligible_pred(*c)).len(),
{
    broadcast use Seq::lemma_filter_push;
    broadcast use Seq::lemma_filter_len;
    broadcast use Seq::lemma_take_succ_push;
    broadcast use Seq::lemma_take_len;

    let mut n: usize = 0;
    let mut i: usize = 0;
    while i < qs.len()
        invariant
            i <= qs@.len(),
            n <= i,
            n == qs@.take(i as int).filter(eligible_pred(*c)).len(),
        decreases qs@.len() - i,
    {
        let nc = crate::answers::count_correct(&qs[i].answers);
        let ni = crate::answers::count_incorrect(&qs[i].answers);
        if c.number_of_correct_answers <= nc && c.number_of_incorrect_answers <= ni {
            n = n + 1;
        }
        i = i + 1;
    }
    proof {
        assert(qs@.take(qs@.len() as int) == qs@);
    }
    n
}

/// Finds a question of the set that can serve config `c`; `None` means none
/// is left.
fn find_eligible_question(qs: &Vec<Question>, c: &QuestionSetConfig) -> (r: Option<usize>)
    ensures
        match r {
            Some(qj) => qj < qs@.len() && q_eligible(qs@[qj as int], *c),
            None => qs@.filter(eligible_pred(*c)).len() == 0,
        },
{
    broadcast use Seq::lemma_filter_push;
    broadcast use Seq::lemma_filter_len;
    broadcast use Seq::lemma_take_succ_push;
    broadcast use Seq::lemma_take_len;

    let mut i: usize = 0;
    while i < qs.len()
        invariant
            i <= qs@.len(),
            qs@.take(i as int).filter(eligible_pred(*c)).len() == 0,
        decreases qs@.len() - i,
    {
        let nc = crate::answers::count_correct(&qs[i].answers);
        let ni = crate::answers::count_incorrect(&qs[i].answers);
        if c.number_of_correct_answers <= nc && c.number_of_incorrect_answers <= ni {
            return Some(i);
        }
        i = i + 1;
    }
    proof {
        assert(qs@.take(qs@.len() as int) == qs@);
    }
    None
}

/// Finds a pool set that could fill one whole slot of config `c`: matching
/// kind, not yet chosen, with a full slot's worth of eligible questions.
fn find_candidate_set(
    pool: &Vec<QuestionSet>,
    chosen: &Vec<GeneratedQuestionSet>,
    c: &QuestionSetConfig,
) -> (r: Option<usize>)
    ensures
        r matches Some(si) ==> si < pool@.len() && pool@[si as int].qtype == c.qtype
            && pool@[si as int].questions@.filter(eligible_pred(*c)).len()
            >= c.number_of_questions && (forall|x: int|
            0 <= x < chosen@.len() ==> (#[trigger] chosen@[x]).id != pool@[si as int].id),
{
    let mut si: usize = 0;
    while si < pool.len()
        invariant
            si <= pool@.len(),
        decreases pool@.len() - si,
    {
        if pool[si].qtype == c.qtype {
            let already = find_gen_set(chosen, pool[si].id);
            if already.is_none() {
                let n = count_eligible(&pool[si].questions, c);
                if n >= c.number_of_questions {
                    return Some(si);
                }
            }
        }
        si = si + 1;
    }
    None
}

/// Removing one eligible question lowers a set's eligible count by one.
proof fn lemma_eligible_count_after_remove(qs: Seq<Question>, qi: int, c: QuestionSetConfig)
    requires
        0 <= qi < qs.len(),
        q_eligible(qs[qi], c),
    ensures
        qs.remove(qi).filter(eligible_pred(c)).len() + 1 == qs.filter(eligible_pred(c)).len(),
{
    qs.to_multiset_ensures();
    vstd::seq_lib::to_multiset_remove(qs, qi);
    crate::lemmas::lemma_seq_filter_len_multiset(qs, eligible_pred(c));
    crate::lemmas::lemma_seq_filter_len_multiset(qs.remove(qi), eligible_pred(c));
    assert(qs.contains(qs[qi]));
    assert(qs.to_multiset().count(qs[qi]) > 0);
    crate::lemmas::lemma_ms_filter_remove(qs.to_multiset(), qs[qi], eligible_pred(c));
}

/// The quota completer's first duty: add whole question sets until the
/// config has its `number_of_set` sets, each filled to the brim, re-checking
/// the attempt budget before every step.
fn complete_sets(
    pool: &mut Vec<QuestionSet>,
    chosen: &mut Vec<GeneratedQuestionSet>,
    c: &QuestionSetConfig,
    start: &std::time::Instant,
    budget_ms: u64,
    rng: &mut rand::rngs::StdRng,
    Ghost(orig): Ghost<Seq<QuestionSet>>,
    Ghost(pool0): Ghost<Seq<QuestionSet>>,
) -> (r: Result<(), ExamError>)
    requires
        wf_sets(orig),
        alloc_inv(orig, pool0, old(pool)@, *c, old(chosen)@),
    ensures
        alloc_inv(orig, pool0, final(pool)@, *c, final(chosen)@),
        gen_seq_extends(final(chosen)@, old(chosen)@),
        r is Ok ==> final(chosen)@.len() == c.number_of_set && (forall|i: int|
            old(chosen)@.len() <= i < final(chosen)@.len()
                ==> (#[trigger] final(chosen)@[i]).questions@.len() == c.number_of_questions),
        r matches Err(e) ==> match e {
            ExamError::Timeout(b) => b == budget_ms,
            ExamError::InvalidConfiguration(k) => (k == crate::model::InvalidKind::NotEnoughQuestionsOfType { qtype: c.qtype }),
        },
        old(chosen)@.len() >= c.number_of_set ==> r is Ok && final(chosen)@ == old(chosen)@
            && final(pool)@ == old(pool)@,
{
    let ghost chosen_in = chosen@;
    let budget_nanos: u128 = (budget_ms as u128) * 1000000u128;
    while chosen.len() < c.number_of_set
        invariant
            alloc_inv(orig, pool0, pool@, *c, chosen@),
            gen_seq_extends(chosen@, chosen_in),
            forall|i: int|
                chosen_in.len() <= i < chosen@.len()
                    ==> (#[trigger] chosen@[i]).questions@.len() == c.number_of_questions,
            chosen_in.len() >= c.number_of_set ==> chosen@ == chosen_in && pool@ == old(pool)@,
        decreases c.number_of_set - chosen@.len(),
    {
        if crate::clock::elapsed_nanos(start) > budget_nanos {
            return Err(ExamError::Timeout(budget_ms));
        }
        let cand = find_candidate_set(&pool, &chosen, c);
        let si = match cand {
            Some(si) => si,
            None => {
                return Err(
                    ExamError::InvalidConfiguration(
                        crate::model::InvalidKind::NotEnoughQuestionsOfType { qtype: c.qtype },
                    ),
                );
            },
        };
        if c.number_of_questions == 0 {
            let set_id = pool[si].id;
            let ghost chosen_before = chosen@;
            chosen.push(GeneratedQuestionSet { id: set_id, questions: Vec::new() });
            proof {
                assert(set_from(pool@[si as int], orig));
                let j = choose|j: int|
                    0 <= j < orig.len() && (#[trigger] orig[j]).id == pool@[si as int].id
                        && orig[j].qtype == pool@[si as int].qtype && forall|k: int|
                        0 <= k < pool@[si as int].questions@.len() ==> question_from(
                            #[trigger] pool@[si as int].questions@[k],
                            orig[j],
                        );
                assert(chosen@.last().questions@.len() == 0);
                assert(gen_set_valid(orig, *c, chosen@.last()));
                assert forall|i: int|
                    0 <= i < chosen@.len() implies gen_set_valid(orig, *c, #[trigger] chosen@[i])
                    && chosen@[i].questions@.len() <= c.number_of_questions by {
                    if i < chosen_before.len() {
                        assert(chosen@[i] == chosen_before[i]);
                    }
                }
                assert forall|id: u64| gen_sets_have_qid(chosen@, id) implies pool_has_qid(
                    pool0,
                    id,
                ) && !pool_has_qid(pool@, id) by {
                    let (i, k) = choose|i: int, k: int|
                        0 <= i < chosen@.len() && 0 <= k < chosen@[i].questions@.len()
                            && chosen@[i].questions@[k].id == id;
                    assert(i < chosen_before.len());
                    assert(gen_sets_have_qid(chosen_before, id));
                }
                assert forall|i: int, k: int, j2: int, l: int|
                    0 <= i < chosen@.len() && 0 <= k < chosen@[i].questions@.len() && 0 <= j2
                        < chosen@.len() && 0 <= l < chosen@[j2].questions@.len() && (i != j2 || k
                        != l) implies (#[trigger] chosen@[i].questions@[k]).id
                    != (#[trigger] chosen@[j2].questions@[l]).id by {
                    assert(chosen@[i] == chosen_before[i]);
                    assert(chosen@[j2] == chosen_before[j2]);
                }
            }
        } else {
            // Fill a fresh slot question by question from the candidate set.
            let qj = match find_eligible_question(&pool[si].questions, c) {
                Some(qj) => qj,
                None => {
                    proof {
                        assert(false);
                    }
                    0
                },
            };
            let sel = crate::answers::select_answers(&pool[si].questions[qj], c, rng);
            let gq = match sel {
                Ok(g) => g,
                Err(_) => {
                    proof {
                        assert(false);
                    }
                    GeneratedQuestion { id: 0, answers: Vec::new() }
                },
            };
            let ghost pool_before = pool@;
            proof {
                lemma_eligible_count_after_remove(
                    pool_before[si as int].questions@,
                    qj as int,
                    *c,
                );
            }
            commit_selected(pool, chosen, si, qj, gq, None, c, Ghost(orig), Ghost(pool0));
            let x = chosen.len() - 1;
            while chosen[x].questions.len() < c.number_of_questions
                invariant
                    alloc_inv(orig, pool0, pool@, *c, chosen@),
                    x == chosen@.len() - 1,
                    chosen@.len() == chosen_in.len() + 1 + (chosen@.len() - chosen_in.len() - 1),
                    gen_seq_extends(chosen@, chosen_in),
                    forall|i: int|
                        chosen_in.len() <= i < chosen@.len() - 1
                            ==> (#[trigger] chosen@[i]).questions@.len()
                            == c.number_of_questions,
                    si < pool@.len(),
                    pool@[si as int].id == chosen@[x as int].id,
                    pool@[si as int].questions@.filter(eligible_pred(*c)).len()
                        + chosen@[x as int].questions@.len() >= c.number_of_questions,
                decreases c.number_of_questions - chosen@[x as int].questions@.len(),
            {
                if crate::clock::elapsed_nanos(start) > budget_nanos {
                    return Err(ExamError::Timeout(budget_ms));
                }
                let qj2 = match find_eligible_question(&pool[si].questions, c) {
                    Some(qj2) => qj2,
                    None => {
                        proof {
                            assert(false);
                        }
                        0
                    },
                };
                let sel2 = crate::answers::select_answers(&pool[si].questions[qj2], c, rng);
                let gq2 = match sel2 {
                    Ok(g) => g,
                    Err(_) => {
                        proof {
                            assert(false);
                        }
                        GeneratedQuestion { id: 0, answers: Vec::new() }
                    },
                };
                let ghost pool_mid = pool@;
                proof {
                    lemma_eligible_count_after_remove(
                        pool_mid[si as int].questions@,
                        qj2 as int,
                        *c,
                    );
                }
                commit_selected(
                    pool,
                    chosen,
                    si,
                    qj2,
                    gq2,
                    Some(x),
                    c,
                    Ghost(orig),
                    Ghost(pool0),
                );
            }
        }
    }
    Ok(())
}

/// A pool question that cannot serve the config descends from an input
/// question that cannot either.
proof fn lemma_pool_question_ineligible_in_input(
    orig: Seq<QuestionSet>,
    pool: Seq<QuestionSet>,
    si: int,
    qi: int,
    c: QuestionSetConfig,
)
    requires
        pool_wf(pool, orig),
        0 <= si < pool.len(),
        0 <= qi < pool[si].questions@.len(),
        !q_eligible(pool[si].questions@[qi], c),
    ensures
        names_ineligible_question(orig, pool[si].questions@[qi].id, c),
{
    let pq = pool[si].questions@[qi];
    assert(set_from(pool[si], orig));
    let j = choose|j: int|
        0 <= j < orig.len() && (#[trigger] orig[j]).id == pool[si].id && orig[j].qtype
            == pool[si].qtype && forall|k: int|
            0 <= k < pool[si].questions@.len() ==> question_from(
                #[trigger] pool[si].questions@[k],
                orig[j],
            );
    assert(question_from(pq, orig[j]));
    let m = choose|m: int|
        0 <= m < orig[j].questions@.len() && (#[trigger] orig[j].questions@[m]).id == pq.id
            && !orig[j].questions@[m].deprecated && !pq.deprecated && pq.tags
            == orig[j].questions@[m].tags && pq.answers@.to_multiset()
            == orig[j].questions@[m].answers@.to_multiset();
    assert(crate::model::answers_ms(pq) == crate::model::answers_ms(orig[j].questions@[m]));
    assert(!q_eligible(orig[j].questions@[m], c));
}

/// The quota completer's second duty: top up every chosen set that is short
/// of `number_of_questions`, pulling unconsumed questions of its source set
/// and selecting their answers, re-checking the attempt budget before every
/// pull.
fn top_up_sets(
    pool: &mut Vec<QuestionSet>,
    chosen: &mut Vec<GeneratedQuestionSet>,
    c: &QuestionSetConfig,
    start: &std::time::Instant,
    budget_ms: u64,
    rng: &mut rand::rngs::StdRng,
    Ghost(orig): Ghost<Seq<QuestionSet>>,
    Ghost(pool0): Ghost<Seq<QuestionSet>>,
) -> (r: Result<(), ExamError>)
    requires
        wf_sets(orig),
        alloc_inv(orig, pool0, old(pool)@, *c, old(chosen)@),
    ensures
        alloc_inv(orig, pool0, final(pool)@, *c, final(chosen)@),
        gen_seq_extends(final(chosen)@, old(chosen)@),
        final(chosen)@.len() == old(chosen)@.len(),
        r is Ok ==> forall|i: int|
            0 <= i < final(chosen)@.len() ==> (#[trigger] final(chosen)@[i]).questions@.len()
                == c.number_of_questions,
        r matches Err(e) ==> match e {
            ExamError::Timeout(b) => b == budget_ms,
            ExamError::InvalidConfiguration(k) => match k {
                crate::model::InvalidKind::NotEnoughQuestionsOfType { qtype } => qtype
                    == c.qtype,
                crate::model::InvalidKind::NotEnoughAnswers { question_id } =>
                    names_ineligible_question(orig, question_id, *c),
                _ => false,
            },
        },
        (forall|i: int|
            0 <= i < old(chosen)@.len() ==> (#[trigger] old(chosen)@[i]).questions@.len()
                == c.number_of_questions) ==> r is Ok && final(chosen)@ == old(chosen)@
            && final(pool)@ == old(pool)@,
{
    let ghost chosen_in = chosen@;
    let ghost allfull = forall|i: int|
        0 <= i < chosen@.len() ==> (#[trigger] chosen@[i]).questions@.len()
            == c.number_of_questions;
    let budget_nanos: u128 = (budget_ms as u128) * 1000000u128;
    let mut x: usize = 0;
    while x < chosen.len()
        invariant
            alloc_inv(orig, pool0, pool@, *c, chosen@),
            gen_seq_extends(chosen@, chosen_in),
            chosen@.len() == chosen_in.len(),
            forall|i: int|
                0 <= i < x as int ==> (#[trigger] chosen@[i]).questions@.len()
                    == c.number_of_questions,
            allfull ==> chosen@ == chosen_in && pool@ == old(pool)@,
        decreases chosen@.len() - x,
    {
        while chosen[x].questions.len() < c.number_of_questions
            invariant
                x < chosen@.len(),
                alloc_inv(orig, pool0, pool@, *c, chosen@),
                gen_seq_extends(chosen@, chosen_in),
                chosen@.len() == chosen_in.len(),
                forall|i: int|
                    0 <= i < x as int ==> (#[trigger] chosen@[i]).questions@.len()
                        == c.number_of_questions,
                allfull ==> chosen@ == chosen_in && pool@ == old(pool)@,
            decreases c.number_of_questions - chosen@[x as int].questions@.len(),
        {
            if crate::clock::elapsed_nanos(start) > budget_nanos {
                return Err(ExamError::Timeout(budget_ms));
            }
            let set_id = chosen[x].id;
            let si = match find_pool_set(&pool, set_id) {
                Some(si) => si,
                None => {
                    return Err(
                        ExamError::InvalidConfiguration(
                            crate::model::InvalidKind::NotEnoughQuestionsOfType {
                                qtype: c.qtype,
                            },
                        ),
                    );
                },
            };
            // Pull an unconsumed question that can serve the config while
            // any remains; only then surface why the set cannot be filled.
            let qj = match find_eligible_question(&pool[si].questions, c) {
                Some(qj) => qj,
                None => {
                    if pool[si].questions.len() == 0 {
                        return Err(
                            ExamError::InvalidConfiguration(
                                crate::model::InvalidKind::NotEnoughQuestionsOfType {
                                    qtype: c.qtype,
                                },
                            ),
                        );
                    }
                    proof {
                        if q_eligible(pool@[si as int].questions@[0], *c) {
                            pool@[si as int].questions@.lemma_filter_contains(
                                eligible_pred(*c),
                                0,
                            );
                            assert(pool@[si as int].questions@.filter(eligible_pred(*c)).len()
                                > 0);
                        }
                        assert(!q_eligible(pool@[si as int].questions@[0], *c));
                    }
                    let sel = crate::answers::select_answers(&pool[si].questions[0], c, rng);
                    match sel {
                        Ok(_) => {
                            proof {
                                assert(false);
                            }
                            return Err(ExamError::Timeout(budget_ms));
                        },
                        Err(e) => {
                            proof {
                                lemma_pool_question_ineligible_in_input(
                                    orig,
                                    pool@,
                                    si as int,
                                    0,
                                    *c,
                                );
                            }
                            return Err(e);
                        },
                    }
                },
            };
            let sel = crate::answers::select_answers(&pool[si].questions[qj], c, rng);
            let gq = match sel {
                Ok(g) => g,
                Err(_) => {
                    proof {
                        assert(false);
                    }
                    GeneratedQuestion { id: 0, answers: Vec::new() }
                },
            };
            commit_selected(pool, chosen, si, qj, gq, Some(x), c, Ghost(orig), Ghost(pool0));
        }
        x = x + 1;
    }
    Ok(())
}

/// Allocates one config's sets: the greedy tag pass, then the completer.
/// On success the returned sets fulfil the config exactly; the ghost result
/// carries the tag-coverage witnesses.
pub(crate) fn fill_config(
    pool: &mut Vec<QuestionSet>,
    tags: &mut Vec<TagConfig>,
    c: &QuestionSetConfig,
    start: &std::time::Instant,
    budget_ms: u64,
    rng: &mut rand::rngs::StdRng,
    Ghost(orig): Ghost<Seq<QuestionSet>>,
) -> (r: Result<(Vec<GeneratedQuestionSet>, Ghost<Seq<Set<u64>>>), ExamError>)
    requires
        wf_sets(orig),
        pool_wf(old(pool)@, orig),
    ensures
        pool_wf(final(pool)@, orig),
        forall|id: u64| pool_has_qid(final(pool)@, id) ==> pool_has_qid(old(pool)@, id),
        r matches Ok(cw) ==> {
            &&& config_fulfilled(*c, cw.0@)
            &&& forall|i: int|
                0 <= i < cw.0@.len() ==> gen_set_valid(orig, *c, #[trigger] cw.0@[i])
            &&& gen_qids_distinct(cw.0@)
            &&& forall|i: int, j: int|
                0 <= i < j < cw.0@.len() ==> (#[trigger] cw.0@[i]).id != (#[trigger] cw.0@[j]).id
            &&& forall|id: u64|
                gen_sets_have_qid(cw.0@, id) ==> pool_has_qid(old(pool)@, id) && !pool_has_qid(
                    final(pool)@,
                    id,
                )
            &&& tags_ok(orig, old(tags)@, final(tags)@, cw.1@, cw.0@)
        },
        r matches Err(e) ==> match e {
            ExamError::Timeout(b) => b == budget_ms,
            ExamError::InvalidConfiguration(k) => match k {
                crate::model::InvalidKind::NotEnoughQuestionsOfType { qtype } => qtype
                    == c.qtype,
                crate::model::InvalidKind::NotEnoughAnswers { question_id } =>
                    names_ineligible_question(orig, question_id, *c),
                _ => false,
            },
        },
        (exists|s: int| saturating_set(old(pool)@, old(tags)@, *c, s)) ==> r is Ok
            && final(tags)@.len() == 1 && final(tags)@[0].number_of_questions == 0,
{
    broadcast use vstd::set::group_set_axioms;

    let ghost pool0 = pool@;
    let ghost tags0 = tags@;
    let ghost sat = exists|s: int| saturating_set(old(pool)@, old(tags)@, *c, s);
    let mut chosen: Vec<GeneratedQuestionSet> = Vec::new();
    let ghost w0 = Seq::<Set<u64>>::new(tags@.len(), |t: int| Set::<u64>::empty());
    proof {
        assert forall|t: int| 0 <= t < tags@.len() implies tag_entry_ok(
            orig,
            tags0[t],
            #[trigger] tags@[t],
            w0[t],
            chosen@,
        ) by {
            assert(w0[t] =~= Set::<u64>::empty());
            assert(w0[t].len() == 0);
        }
        assert(tags_ok(orig, tags0, tags@, w0, chosen@));
    }
    let w1 = tag_pass(pool, tags, &mut chosen, c, rng, Ghost(orig), Ghost(pool0), Ghost(tags0), Ghost(w0));
    let ghost chosen_mid = chosen@;
    proof {
        if sat {
            assert(sat_done(*c, tags@, chosen@));
        }
    }
    match complete_sets(pool, &mut chosen, c, start, budget_ms, rng, Ghost(orig), Ghost(pool0)) {
        Ok(()) => {},
        Err(e) => {
            proof {
                if sat {
                    assert(false);
                }
            }
            return Err(e);
        },
    }
    let ghost chosen_mid2 = chosen@;
    match top_up_sets(pool, &mut chosen, c, start, budget_ms, rng, Ghost(orig), Ghost(pool0)) {
        Ok(()) => {},
        Err(e) => {
            proof {
                if sat {
                    assert(chosen_mid2 == chosen_mid);
                    assert(false);
                }
            }
            return Err(e);
        },
    }
    proof {
        lemma_gen_extends_trans(chosen_mid, chosen_mid2, chosen@);
        let ghost wseq = w1@;
        assert(tags_ok(orig, tags0, tags@, wseq, chosen_mid));
        assert forall|t: int| 0 <= t < tags@.len() implies tag_entry_ok(
            orig,
            tags0[t],
            #[trigger] tags@[t],
            wseq[t],
            chosen@,
        ) by {
            assert(tag_entry_ok(orig, tags0[t], tags@[t], wseq[t], chosen_mid));
            lemma_gen_qids_monotone(chosen_mid, chosen@);
        }
        assert(config_fulfilled(*c, chosen@));
    }
    Ok((chosen, Ghost(w1@)))
}

} // verus!
