//! The forward walk along a scene's linked samples.
use vstd::prelude::*;

use vstd::set_lib::{lemma_int_range, lemma_len_subset, set_int_range};

use crate::index::{lemma_position_some, locate, position, Index};
use crate::records::{keys, Sample};

verus! {

/// The successor tokens of a sample table, in table order.
pub open spec fn nexts(samples: Seq<Sample>) -> Seq<Seq<char>> {
    Seq::new(samples.len(), |i: int| samples[i].next@)
}

/// The positions of the samples met from token `start` on, each followed by
/// the sample that its successor token resolves to, until a token resolves
/// to nothing. `None` where more than `limit` samples are met.
pub open spec fn chain(
    tokens: Seq<Seq<char>>,
    nexts: Seq<Seq<char>>,
    start: Seq<char>,
    limit: nat,
) -> Option<Seq<usize>>
    decreases limit,
{
    match locate(tokens, start) {
        None => Some(Seq::empty()),
        Some(i) => if limit == 0 {
            None
        } else {
            match chain(tokens, nexts, nexts[i as int], (limit - 1) as nat) {
                Some(rest) => Some(seq![i] + rest),
                None => None,
            }
        },
    }
}

/// A walk that has met `met` and goes on as `rest`.
pub open spec fn after(met: Seq<usize>, rest: Option<Seq<usize>>) -> Option<Seq<usize>> {
    match rest {
        Some(rest) => Some(met + rest),
        None => None,
    }
}

/// The positions of an optional walk.
pub open spec fn steps(walk: Option<Vec<usize>>) -> Option<Seq<usize>> {
    match walk {
        Some(v) => Some(v@),
        None => None,
    }
}

/// Walks the samples from token `start` on. A walk that meets more samples
/// than the table holds is given up, and the result is then `None`: such a
/// walk runs in a circle, as `law_circular` shows.
pub fn walk(index: &Index, samples: &Vec<Sample>, start: &str) -> (out: Option<Vec<usize>>)
    requires
        index.wf(),
        index.tokens() == keys(samples@),
    ensures
        steps(out) == chain(keys(samples@), nexts(samples@), start@, samples@.len()),
{
    let ghost tokens = keys(samples@);
    let ghost links = nexts(samples@);
    let ghost whole = chain(tokens, links, start@, samples@.len());
    let mut met: Vec<usize> = Vec::new();
    let mut current: &str = start;
    proof {
        if whole.is_some() {
            assert(met@ + whole.unwrap() =~= whole.unwrap());
        }
    }
    loop
        invariant
            index.wf(),
            index.tokens() == tokens,
            tokens == keys(samples@),
            links == nexts(samples@),
            met.len() <= samples.len(),
            whole == chain(tokens, links, start@, samples@.len()),
            whole == after(
                met@,
                chain(tokens, links, current@, (samples.len() - met.len()) as nat),
            ),
        decreases samples.len() - met.len(),
    {
        match index.get(current) {
            None => {
                proof {
                    assert(met@ + Seq::<usize>::empty() =~= met@);
                }
                return Some(met);
            },
            Some(i) => {
                if met.len() == samples.len() {
                    return None;
                }
                proof {
                    let left = (samples.len() - met.len() - 1) as nat;
                    let rest = chain(tokens, links, links[i as int], left);
                    if rest.is_some() {
                        assert(met@ + (seq![i] + rest.unwrap()) =~= met@.push(i) + rest.unwrap());
                    }
                }
                met.push(i);
                current = samples[i].next.as_str();
            },
        }
    }
}

/// A walk that ends visits a resolved sample at each step, starts where the
/// first token resolves, goes on where each successor token resolves, and
/// stops where one resolves to nothing.
pub proof fn lemma_chain_links(
    tokens: Seq<Seq<char>>,
    nexts: Seq<Seq<char>>,
    start: Seq<char>,
    limit: nat,
)
    requires
        tokens.len() == nexts.len(),
        tokens.len() <= usize::MAX,
    ensures
        match chain(tokens, nexts, start, limit) {
            Some(c) => {
                &&& c.len() <= limit
                &&& forall|k: int|
                    0 <= k < c.len() ==> {
                        &&& (#[trigger] c[k]) < tokens.len()
                        &&& locate(tokens, tokens[c[k] as int]) == Some(c[k])
                    }
                &&& (c.len() == 0 ==> locate(tokens, start).is_none())
                &&& (c.len() > 0 ==> locate(tokens, start) == Some(c[0]))
                &&& forall|k: int|
                    0 <= k < c.len() - 1 ==> locate(tokens, #[trigger] nexts[c[k] as int])
                        == Some(c[k + 1])
                &&& (c.len() > 0 ==> locate(tokens, nexts[c.last() as int]).is_none())
            },
            None => true,
        },
    decreases limit,
{
    lemma_position_some(tokens, start);
    match locate(tokens, start) {
        None => {},
        Some(i) => {
            if limit > 0 {
                let left = (limit - 1) as nat;
                lemma_chain_links(tokens, nexts, nexts[i as int], left);
                match chain(tokens, nexts, nexts[i as int], left) {
                    Some(rest) => {
                        let c = seq![i] + rest;
                        assert forall|k: int| 0 <= k < c.len() - 1 implies locate(
                            tokens,
                            #[trigger] nexts[c[k] as int],
                        ) == Some(c[k + 1]) by {
                            if k > 0 {
                                assert(c[k] == rest[k - 1]);
                                assert(c[k + 1] == rest[k]);
                            }
                        }
                        assert(c.len() > 0 && c.last() == (if rest.len() > 0 {
                            rest.last()
                        } else {
                            i
                        }));
                    },
                    None => {},
                }
            }
        },
    }
}

/// A larger limit changes no walk that ended within a smaller one.
pub proof fn law_longer_limit(
    tokens: Seq<Seq<char>>,
    nexts: Seq<Seq<char>>,
    start: Seq<char>,
    limit: nat,
    more: nat,
)
    requires
        limit <= more,
        chain(tokens, nexts, start, limit).is_some(),
    ensures
        chain(tokens, nexts, start, more) == chain(tokens, nexts, start, limit),
    decreases limit,
{
    match locate(tokens, start) {
        None => {},
        Some(i) => {
            law_longer_limit(
                tokens,
                nexts,
                nexts[i as int],
                (limit - 1) as nat,
                (more - 1) as nat,
            );
        },
    }
}

/// The position of the sample met after `k` steps from the first, on the
/// walk from token `start`, where the walk gets that far.
pub open spec fn visit(
    tokens: Seq<Seq<char>>,
    nexts: Seq<Seq<char>>,
    start: Seq<char>,
    k: nat,
) -> Option<int>
    decreases k,
{
    match position(tokens, start) {
        None => None,
        Some(i) => if k == 0 {
            Some(i)
        } else {
            visit(tokens, nexts, nexts[i], (k - 1) as nat)
        },
    }
}

/// A walk goes beyond a limit exactly where it gets to one sample more.
proof fn lemma_chain_visit(
    tokens: Seq<Seq<char>>,
    nexts: Seq<Seq<char>>,
    start: Seq<char>,
    limit: nat,
)
    requires
        tokens.len() <= usize::MAX,
    ensures
        chain(tokens, nexts, start, limit).is_none() == visit(
            tokens,
            nexts,
            start,
            limit,
        ).is_some(),
    decreases limit,
{
    lemma_position_some(tokens, start);
    match position(tokens, start) {
        None => {},
        Some(i) => {
            if limit > 0 {
                lemma_chain_visit(tokens, nexts, nexts[i], (limit - 1) as nat);
            }
        },
    }
}

/// A walk that gets to a step got to each step before it, at a position of
/// the table.
proof fn lemma_visit_earlier(
    tokens: Seq<Seq<char>>,
    nexts: Seq<Seq<char>>,
    start: Seq<char>,
    k: nat,
    j: nat,
)
    requires
        j <= k,
        visit(tokens, nexts, start, k).is_some(),
    ensures
        visit(tokens, nexts, start, j).is_some(),
        0 <= visit(tokens, nexts, start, j).unwrap() < tokens.len(),
    decreases j,
{
    lemma_position_some(tokens, start);
    if j > 0 {
        let i = position(tokens, start).unwrap();
        lemma_visit_earlier(tokens, nexts, nexts[i], (k - 1) as nat, (j - 1) as nat);
    }
}

/// The steps after a step depend on the sample met there alone.
proof fn lemma_visit_split(
    tokens: Seq<Seq<char>>,
    nexts: Seq<Seq<char>>,
    start: Seq<char>,
    a: nat,
    j: nat,
)
    requires
        visit(tokens, nexts, start, a).is_some(),
        j >= 1,
    ensures
        visit(tokens, nexts, start, a + j) == visit(
            tokens,
            nexts,
            nexts[visit(tokens, nexts, start, a).unwrap()],
            (j - 1) as nat,
        ),
    decreases a,
{
    if a > 0 {
        let i = position(tokens, start).unwrap();
        lemma_visit_split(tokens, nexts, nexts[i], (a - 1) as nat, j);
    }
}

/// A walk that meets one sample twice gets to every step.
proof fn lemma_visit_forever(
    tokens: Seq<Seq<char>>,
    nexts: Seq<Seq<char>>,
    start: Seq<char>,
    a: nat,
    b: nat,
    k: nat,
)
    requires
        a < b,
        visit(tokens, nexts, start, a).is_some(),
        visit(tokens, nexts, start, a) == visit(tokens, nexts, start, b),
    ensures
        visit(tokens, nexts, start, k).is_some(),
    decreases k,
{
    if k <= b {
        lemma_visit_earlier(tokens, nexts, start, b, k);
    } else {
        let j = (k - b) as nat;
        lemma_visit_split(tokens, nexts, start, b, j);
        lemma_visit_split(tokens, nexts, start, a, j);
        lemma_visit_forever(tokens, nexts, start, a, b, a + j);
    }
}

/// A walk that does not end within as many samples as the table holds ends
/// within no limit: it meets one sample twice, and so runs in a circle.
pub proof fn law_circular(
    tokens: Seq<Seq<char>>,
    nexts: Seq<Seq<char>>,
    start: Seq<char>,
    limit: nat,
)
    requires
        tokens.len() <= usize::MAX,
        chain(tokens, nexts, start, tokens.len()).is_none(),
    ensures
        chain(tokens, nexts, start, limit).is_none(),
{
    let n = tokens.len();
    lemma_chain_visit(tokens, nexts, start, n);
    let met = Seq::new(n + 1, |j: int| visit(tokens, nexts, start, j as nat).unwrap());
    assert forall|j: int| 0 <= j <= n implies 0 <= #[trigger] met[j] < n by {
        lemma_visit_earlier(tokens, nexts, start, n, j as nat);
    }
    if met.no_duplicates() {
        met.unique_seq_to_set();
        lemma_int_range(0, n as int);
        assert forall|p: int| met.to_set().contains(p) implies set_int_range(0, n as int).contains(
            p,
        ) by {
            let j = choose|j: int| 0 <= j < met.len() && met[j] == p;
            assert(0 <= met[j] < n);
        }
        lemma_len_subset(met.to_set(), set_int_range(0, n as int));
        assert(false);
    }
    let (a, b) = choose|a: int, b: int|
        0 <= a < met.len() && 0 <= b < met.len() && a != b && met[a] == met[b];
    lemma_visit_earlier(tokens, nexts, start, n, a as nat);
    lemma_visit_earlier(tokens, nexts, start, n, b as nat);
    if a < b {
        lemma_visit_forever(tokens, nexts, start, a as nat, b as nat, limit);
    } else {
        lemma_visit_forever(tokens, nexts, start, b as nat, a as nat, limit);
    }
    lemma_chain_visit(tokens, nexts, start, limit);
}

} // verus!
