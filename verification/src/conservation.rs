//! Budget conservation bookkeeping. Whether a budget conserves (`gamma + eta == total`
//! within a tolerance) is a floating-point test made by the caller; this module keeps
//! what follows from its outcomes.

use vstd::prelude::*;

verus! {

/// The ids of the agents whose budget does not conserve, in order: `ids[i]` is kept
/// when `conserved[i]` is false.
pub open spec fn violators(ids: Seq<String>, conserved: Seq<bool>) -> Seq<Seq<char>>
    decreases ids.len(),
{
    if ids.len() == 0 || conserved.len() != ids.len() {
        Seq::empty()
    } else if !conserved.last() {
        violators(ids.drop_last(), conserved.drop_last()).push(ids.last()@)
    } else {
        violators(ids.drop_last(), conserved.drop_last())
    }
}

/// The ids of the agents that violate conservation: `agent_ids[i]` is listed when
/// `conserved[i]`, the outcome of the conservation check of agent `i`, is false.
pub fn violating_agents(agent_ids: &Vec<String>, conserved: &Vec<bool>) -> (r: Vec<String>)
    requires
        agent_ids@.len() == conserved@.len(),
    ensures
        r@.len() == violators(agent_ids@, conserved@).len(),
        forall|i: int| 0 <= i < r@.len() ==> (#[trigger] r@[i])@ == violators(agent_ids@, conserved@)[i],
{
    let n = agent_ids.len();
    let mut r: Vec<String> = Vec::new();
    let mut i: usize = 0;
    while i < n
        invariant
            n == agent_ids@.len(),
            n == conserved@.len(),
            i <= n,
            r@.len() == violators(agent_ids@.take(i as int), conserved@.take(i as int)).len(),
            forall|a: int|
                0 <= a < r@.len() ==> (#[trigger] r@[a])@ == violators(
                    agent_ids@.take(i as int),
                    conserved@.take(i as int),
                )[a],
        decreases n - i,
    {
        assert(agent_ids@.take(i + 1).drop_last() =~= agent_ids@.take(i as int));
        assert(conserved@.take(i + 1).drop_last() =~= conserved@.take(i as int));
        if !conserved[i] {
            r.push(agent_ids[i].clone());
        }
        i += 1;
    }
    assert(agent_ids@.take(n as int) =~= agent_ids@);
    assert(conserved@.take(n as int) =~= conserved@);
    r
}

/// The positions of the failed checks in `conserved`, in order.
spec fn failed_positions(conserved: Seq<bool>) -> Seq<int>
    decreases conserved.len(),
{
    if conserved.len() == 0 {
        Seq::empty()
    } else if !conserved.last() {
        failed_positions(conserved.drop_last()).push(conserved.len() - 1)
    } else {
        failed_positions(conserved.drop_last())
    }
}

proof fn lemma_failed_positions(conserved: Seq<bool>)
    ensures
        forall|j: int|
            0 <= j < failed_positions(conserved).len() ==> 0 <= #[trigger] failed_positions(
                conserved,
            )[j] < conserved.len() && !conserved[failed_positions(conserved)[j]],
        forall|j: int, k: int|
            0 <= j < k < failed_positions(conserved).len() ==> failed_positions(conserved)[j]
                < failed_positions(conserved)[k],
        forall|i: int|
            0 <= i < conserved.len() && !conserved[i] ==> failed_positions(conserved).contains(i),
        failed_positions(conserved).len() == conserved.filter(|b: bool| !b).len(),
    decreases conserved.len(),
{
    reveal(Seq::filter);
    if conserved.len() > 0 {
        let p = conserved.drop_last();
        let ip = failed_positions(p);
        let idx = failed_positions(conserved);
        let last = conserved.len() - 1;
        lemma_failed_positions(p);
        assert(conserved.filter(|b: bool| !b) == if !conserved.last() {
            p.filter(|b: bool| !b).push(conserved.last())
        } else {
            p.filter(|b: bool| !b)
        });
        assert forall|j: int| 0 <= j < idx.len() implies 0 <= #[trigger] idx[j] < conserved.len()
            && !conserved[idx[j]] by {
            if j < ip.len() {
                assert(idx[j] == ip[j]);
                assert(p[ip[j]] == conserved[ip[j]]);
            }
        }
        assert forall|i: int| 0 <= i < conserved.len() && !conserved[i] implies idx.contains(i) by {
            if i < last {
                assert(p[i] == conserved[i]);
                let j = choose|j: int| 0 <= j < ip.len() && ip[j] == i;
                assert(idx[j] == i);
            } else {
                assert(idx[ip.len() as int] == i);
            }
        }
    }
}

/// `reported` lists `agent_ids` at the positions `idx`, in order, and `idx` is
/// increasing and holds every position whose check failed and no other.
pub open spec fn reported_at(
    agent_ids: Seq<String>,
    conserved: Seq<bool>,
    reported: Seq<Seq<char>>,
    idx: Seq<int>,
) -> bool {
    &&& idx.len() == reported.len()
    &&& forall|j: int|
        0 <= j < idx.len() ==> 0 <= #[trigger] idx[j] < conserved.len() && !conserved[idx[j]]
            && reported[j] == agent_ids[idx[j]]@
    &&& forall|j: int, k: int| 0 <= j < k < idx.len() ==> idx[j] < idx[k]
    &&& forall|i: int| 0 <= i < conserved.len() && !conserved[i] ==> idx.contains(i)
}

/// `violating_agents` reports exactly the agents whose check failed, each once, in order:
/// there is an increasing list of positions, holding every `i` with `conserved[i]` false
/// and no other, such that the `j`-th reported id is `agent_ids` at its `j`-th position.
/// So every failed agent is reported, and there are as many ids as failed checks.
pub proof fn law_violating_agents_exact(agent_ids: Seq<String>, conserved: Seq<bool>)
    requires
        agent_ids.len() == conserved.len(),
    ensures
        exists|idx: Seq<int>| #[trigger] reported_at(agent_ids, conserved, violators(agent_ids, conserved), idx),
        forall|i: int|
            0 <= i < conserved.len() && !conserved[i] ==> violators(agent_ids, conserved).contains(
                (#[trigger] agent_ids[i])@,
            ),
        violators(agent_ids, conserved).len() == conserved.filter(|b: bool| !b).len(),
{
    let v = violators(agent_ids, conserved);
    let idx = failed_positions(conserved);
    lemma_failed_positions(conserved);
    assert forall|j: int| 0 <= j < idx.len() implies v[j] == agent_ids[idx[j]]@ by {
        lemma_violators_follow_positions(agent_ids, conserved, j);
    }
    assert(idx.len() == v.len()) by {
        lemma_violators_len(agent_ids, conserved);
    }
    assert forall|i: int| 0 <= i < conserved.len() && !conserved[i] implies v.contains(
        (#[trigger] agent_ids[i])@,
    ) by {
        let j = choose|j: int| 0 <= j < idx.len() && idx[j] == i;
        lemma_violators_len(agent_ids, conserved);
        lemma_violators_follow_positions(agent_ids, conserved, j);
    }
    assert(reported_at(agent_ids, conserved, v, idx));
}

proof fn lemma_violators_len(ids: Seq<String>, conserved: Seq<bool>)
    requires
        ids.len() == conserved.len(),
    ensures
        violators(ids, conserved).len() == failed_positions(conserved).len(),
    decreases ids.len(),
{
    if ids.len() > 0 {
        lemma_violators_len(ids.drop_last(), conserved.drop_last());
    }
}

proof fn lemma_violators_follow_positions(ids: Seq<String>, conserved: Seq<bool>, j: int)
    requires
        ids.len() == conserved.len(),
        0 <= j < failed_positions(conserved).len(),
    ensures
        j < violators(ids, conserved).len(),
        violators(ids, conserved)[j] == ids[failed_positions(conserved)[j]]@,
    decreases ids.len(),
{
    lemma_violators_len(ids, conserved);
    let pi = ids.drop_last();
    let pc = conserved.drop_last();
    let ip = failed_positions(pc);
    lemma_violators_len(pi, pc);
    lemma_failed_positions(pc);
    if j < ip.len() {
        lemma_violators_follow_positions(pi, pc, j);
        assert(pi[ip[j]] == ids[ip[j]]);
    }
}

} // verus!
