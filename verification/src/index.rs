//! Lookup of records by token, and the grouping of records by the sample they
//! belong to.
use vstd::hash_map::StringHashMap;
use vstd::prelude::*;

use crate::records::{keys, owners, Keyed, Member};

verus! {

/// The position of the last record that carries token `t`, if any does.
/// Where tokens are unique, as a dataset promises, it is the only one.
pub open spec fn position(tokens: Seq<Seq<char>>, t: Seq<char>) -> Option<int>
    decreases tokens.len(),
{
    if tokens.len() == 0 {
        None
    } else if tokens.last() == t {
        Some(tokens.len() - 1)
    } else {
        position(tokens.drop_last(), t)
    }
}

/// `position`, as a machine index.
pub open spec fn locate(tokens: Seq<Seq<char>>, t: Seq<char>) -> Option<usize> {
    match position(tokens, t) {
        Some(i) => Some(i as usize),
        None => None,
    }
}

/// The positions at which `t` stands in `links`, ascending.
pub open spec fn members(links: Seq<Seq<char>>, t: Seq<char>) -> Seq<usize>
    decreases links.len(),
{
    if links.len() == 0 {
        Seq::empty()
    } else if links.last() == t {
        members(links.drop_last(), t).push((links.len() - 1) as usize)
    } else {
        members(links.drop_last(), t)
    }
}

/// A position that `position` gives lies in the table and carries the token.
pub proof fn lemma_position_some(tokens: Seq<Seq<char>>, t: Seq<char>)
    ensures
        match position(tokens, t) {
            Some(i) => 0 <= i < tokens.len() && tokens[i] == t,
            None => forall|j: int| 0 <= j < tokens.len() ==> tokens[j] != t,
        },
    decreases tokens.len(),
{
    if tokens.len() > 0 && tokens.last() != t {
        let front = tokens.drop_last();
        lemma_position_some(front, t);
        assert forall|j: int| 0 <= j < front.len() implies front[j] == tokens[j] by {}
    }
}

/// Where one record only carries a token, that record is the one found.
pub proof fn law_unique_token(tokens: Seq<Seq<char>>, t: Seq<char>, i: int)
    requires
        0 <= i < tokens.len(),
        tokens[i] == t,
        forall|j: int| 0 <= j < tokens.len() && j != i ==> tokens[j] != t,
    ensures
        position(tokens, t) == Some(i),
    decreases tokens.len(),
{
    if tokens.last() != t {
        let front = tokens.drop_last();
        assert forall|j: int| 0 <= j < front.len() && j != i implies front[j] != t by {
            assert(front[j] == tokens[j]);
        }
        law_unique_token(front, t, i);
    }
}

/// Every member is a position of the table, and carries the token.
pub proof fn lemma_members_bound(links: Seq<Seq<char>>, t: Seq<char>)
    requires
        links.len() <= usize::MAX,
    ensures
        forall|j: int|
            0 <= j < members(links, t).len() ==> {
                let m = #[trigger] members(links, t)[j];
                m < links.len() && links[m as int] == t
            },
    decreases links.len(),
{
    if links.len() > 0 {
        let front = links.drop_last();
        lemma_members_bound(front, t);
        assert forall|j: int| 0 <= j < members(links, t).len() implies {
            let m = #[trigger] members(links, t)[j];
            m < links.len() && links[m as int] == t
        } by {
            if j < members(front, t).len() {
                let m = members(front, t)[j];
                assert(m < front.len() && front[m as int] == t);
            }
        }
    }
}

/// No member is left out, and the members stand in table order: every
/// position that carries the token is a member, and each member lies before
/// the next.
pub proof fn law_members(links: Seq<Seq<char>>, t: Seq<char>)
    requires
        links.len() <= usize::MAX,
    ensures
        forall|k: int|
            0 <= k < links.len() && #[trigger] links[k] == t ==> members(links, t).contains(
                k as usize,
            ),
        forall|i: int, j: int|
            0 <= i < j < members(links, t).len() ==> #[trigger] members(links, t)[i]
                < #[trigger] members(links, t)[j],
    decreases links.len(),
{
    if links.len() > 0 {
        let front = links.drop_last();
        let last = (links.len() - 1) as usize;
        law_members(front, t);
        lemma_members_bound(front, t);
        assert forall|k: int| 0 <= k < links.len() && #[trigger] links[k] == t implies members(
            links,
            t,
        ).contains(k as usize) by {
            if k < front.len() {
                assert(front[k] == t);
                let at = choose|at: int|
                    0 <= at < members(front, t).len() && members(front, t)[at] == k as usize;
                assert(members(links, t)[at] == k as usize);
            } else {
                assert(members(links, t).last() == last);
            }
        }
        assert forall|i: int, j: int| 0 <= i < j < members(links, t).len() implies #[trigger] members(
            links,
            t,
        )[i] < #[trigger] members(links, t)[j] by {
            if j < members(front, t).len() {
                assert(members(front, t)[i] < members(front, t)[j]);
            } else {
                assert(members(front, t)[i] < front.len());
            }
        }
    }
}

/// A table's tokens, each mapped to the position it resolves to.
pub struct Index {
    map: StringHashMap<usize>,
    size: usize,
    tokens: Ghost<Seq<Seq<char>>>,
}

impl Index {
    /// The tokens of the table that was indexed.
    pub closed spec fn tokens(&self) -> Seq<Seq<char>> {
        self.tokens@
    }

    /// The index answers as `locate` does on its table.
    pub closed spec fn wf(&self) -> bool {
        &&& self.tokens@.len() == self.size
        &&& forall|t: Seq<char>| #[trigger]
            position(self.tokens@, t) == (if self.map@.contains_key(t) {
                Some(self.map@[t] as int)
            } else {
                None
            })
    }

    /// Indexes a table. Of two records with one token the later one is found.
    pub fn build<T: Keyed>(table: &Vec<T>) -> (out: Index)
        ensures
            out.wf(),
            out.tokens() == keys(table@),
    {
        let mut map: StringHashMap<usize> = StringHashMap::new();
        let ghost all = keys(table@);
        let mut k: usize = 0;
        while k < table.len()
            invariant
                k <= table.len(),
                all == keys(table@),
                forall|t: Seq<char>| #[trigger]
                    position(all.take(k as int), t) == (if map@.contains_key(t) {
                        Some(map@[t] as int)
                    } else {
                        None
                    }),
            decreases table.len() - k,
        {
            let token = table[k].token().clone();
            proof {
                assert(all.take(k + 1).drop_last() =~= all.take(k as int));
                assert(all.take(k + 1).last() == token@);
            }
            let ghost before = map@;
            map.insert(token, k);
            proof {
                assert forall|t: Seq<char>| #[trigger]
                    position(all.take(k + 1), t) == (if map@.contains_key(t) {
                        Some(map@[t] as int)
                    } else {
                        None
                    }) by {
                    if t != token@ {
                        assert(position(all.take(k + 1), t) == position(all.take(k as int), t));
                        assert(map@.contains_key(t) == before.contains_key(t));
                    }
                }
            }
            k += 1;
        }
        proof {
            assert(all.take(k as int) =~= all);
        }
        Index { map, size: k, tokens: Ghost(all) }
    }

    /// The number of records in the table that was indexed.
    pub fn len(&self) -> (n: usize)
        requires
            self.wf(),
        ensures
            n == self.tokens().len(),
    {
        self.size
    }

    /// The position of the record with token `t`.
    pub fn get(&self, t: &str) -> (out: Option<usize>)
        requires
            self.wf(),
        ensures
            out == locate(self.tokens(), t@),
            match out {
                Some(i) => i < self.tokens().len() && self.tokens()[i as int] == t@,
                None => forall|j: int| 0 <= j < self.tokens().len() ==> self.tokens()[j] != t@,
            },
    {
        proof {
            lemma_position_some(self.tokens@, t@);
        }
        match self.map.get(t) {
            Some(i) => Some(*i),
            None => None,
        }
    }
}

/// The groups that `group` builds: at the position that a token resolves to,
/// the members that refer to that token; nothing elsewhere.
pub open spec fn grouped(tokens: Seq<Seq<char>>, links: Seq<Seq<char>>, p: int) -> Seq<usize> {
    if position(tokens, tokens[p]) == Some(p) {
        members(links, tokens[p])
    } else {
        Seq::empty()
    }
}

/// Groups the records of `table` by the sample they refer to: one group for
/// each position of the sample table, each in table order.
pub fn group<T: Member>(index: &Index, table: &Vec<T>) -> (out: Vec<Vec<usize>>)
    requires
        index.wf(),
    ensures
        out.len() == index.tokens().len(),
        forall|p: int|
            0 <= p < out.len() ==> (#[trigger] out[p])@ == grouped(
                index.tokens(),
                owners(table@),
                p,
            ),
{
    let ghost tokens = index.tokens();
    let ghost links = owners(table@);
    let mut out: Vec<Vec<usize>> = Vec::new();
    let mut p: usize = 0;
    let n = index.len();
    while p < n
        invariant
            p <= n,
            n == tokens.len(),
            out.len() == p,
            forall|q: int| 0 <= q < p ==> (#[trigger] out[q])@ == Seq::<usize>::empty(),
        decreases n - p,
    {
        out.push(Vec::new());
        p += 1;
    }
    let mut k: usize = 0;
    while k < table.len()
        invariant
            k <= table.len(),
            index.wf(),
            tokens == index.tokens(),
            links == owners(table@),
            out.len() == tokens.len(),
            forall|q: int|
                0 <= q < out.len() ==> (#[trigger] out[q])@ == grouped(
                    tokens,
                    links.take(k as int),
                    q,
                ),
        decreases table.len() - k,
    {
        let ghost before = out;
        let found = index.get(table[k].sample_token().as_str());
        proof {
            assert(links.take(k + 1).drop_last() =~= links.take(k as int));
            assert(links.take(k + 1).last() == links[k as int]);
            lemma_position_some(tokens, links[k as int]);
        }
        match found {
            Some(q) => {
                out[q].push(k);
            },
            None => {},
        }
        proof {
            assert forall|q: int| 0 <= q < out.len() implies (#[trigger] out[q])@ == grouped(
                tokens,
                links.take(k + 1),
                q,
            ) by {
                assert(before[q]@ == grouped(tokens, links.take(k as int), q));
            }
        }
        k += 1;
    }
    proof {
        assert(links.take(k as int) =~= links);
    }
    out
}

} // verus!
