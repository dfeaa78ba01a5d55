use vstd::prelude::*;

verus! {

/// One reaction record: a user reacted to a comment with a reaction type.
pub struct Reaction {
    pub comment_id: String,
    pub user_id: String,
    pub reaction_type: String,
}

/// Number of records in `rs` that target comment `cid` with type `t`.
pub open spec fn count_of(rs: Seq<Reaction>, cid: Seq<char>, t: Seq<char>) -> nat
    decreases rs.len(),
{
    if rs.len() == 0 {
        0
    } else {
        let r = rs.last();
        count_of(rs.drop_last(), cid, t) + if r.comment_id@ == cid && r.reaction_type@ == t {
            1nat
        } else {
            0nat
        }
    }
}

/// Reaction types, in record order, that the acting user gave to comment `cid`;
/// empty when there is no acting user.
pub open spec fn own_types(rs: Seq<Reaction>, cid: Seq<char>, acting: Option<Seq<char>>) -> Seq<Seq<char>>
    decreases rs.len(),
{
    if rs.len() == 0 {
        Seq::empty()
    } else {
        let r = rs.last();
        let before = own_types(rs.drop_last(), cid, acting);
        if r.comment_id@ == cid && acting == Some(r.user_id@) {
            before.push(r.reaction_type@)
        } else {
            before
        }
    }
}

/// The number of reactions of one type on one comment.
pub struct Tally {
    pub reaction_type: String,
    pub count: usize,
}

/// `ts` lists each reaction type that comment `cid` received in `rs` exactly once,
/// with its count.
pub open spec fn tallies_match(ts: Seq<Tally>, rs: Seq<Reaction>, cid: Seq<char>) -> bool {
    &&& forall|a: int, b: int| 0 <= a < b < ts.len() ==> #[trigger] ts[a].reaction_type@ != #[trigger] ts[b].reaction_type@
    &&& forall|a: int| 0 <= a < ts.len() ==> #[trigger] ts[a].count == count_of(rs, cid, ts[a].reaction_type@)
        && ts[a].count > 0
    &&& forall|t: Seq<char>| #[trigger] count_of(rs, cid, t) > 0 ==> exists|a: int| 0 <= a < ts.len()
        && #[trigger] ts[a].reaction_type@ == t
}

/// A record that matches a comment and a type is counted.
pub proof fn lemma_count_positive(rs: Seq<Reaction>, j: int)
    requires
        0 <= j < rs.len(),
    ensures
        count_of(rs, rs[j].comment_id@, rs[j].reaction_type@) > 0,
    decreases rs.len(),
{
    if j < rs.len() - 1 {
        lemma_count_positive(rs.drop_last(), j);
    }
}

pub open spec fn opt_view(o: Option<String>) -> Option<Seq<char>> {
    match o {
        Some(s) => Some(s@),
        None => None,
    }
}

/// Counts the reactions of type `t` on comment `cid`.
pub fn tally(rs: &Vec<Reaction>, cid: &String, t: &String) -> (n: usize)
    ensures
        n == count_of(rs@, cid@, t@),
{
    let mut n: usize = 0;
    let mut i: usize = 0;
    while i < rs.len()
        invariant
            i <= rs@.len(),
            n == count_of(rs@.take(i as int), cid@, t@),
            n <= i,
        decreases rs@.len() - i,
    {
        assert(rs@.take(i + 1).drop_last() =~= rs@.take(i as int));
        if rs[i].comment_id == *cid && rs[i].reaction_type == *t {
            n = n + 1;
        }
        i = i + 1;
    }
    assert(rs@.take(i as int) =~= rs@);
    n
}

/// The reaction types that the acting user gave to comment `cid`, in record order,
/// duplicates kept.
pub fn user_reactions(rs: &Vec<Reaction>, cid: &String, acting: &Option<String>) -> (v: Vec<String>)
    ensures
        v@.map_values(|s: String| s@) == own_types(rs@, cid@, opt_view(*acting)),
{
    let mut v: Vec<String> = Vec::new();
    let mut i: usize = 0;
    while i < rs.len()
        invariant
            i <= rs@.len(),
            v@.map_values(|s: String| s@) == own_types(rs@.take(i as int), cid@, opt_view(*acting)),
        decreases rs@.len() - i,
    {
        assert(rs@.take(i + 1).drop_last() =~= rs@.take(i as int));
        let mine = match acting {
            Some(u) => rs[i].user_id == *u,
            None => false,
        };
        if mine && rs[i].comment_id == *cid {
            v.push(rs[i].reaction_type.clone());
            assert(v@.map_values(|s: String| s@) =~= own_types(rs@.take(i + 1), cid@, opt_view(*acting)));
        }
        i = i + 1;
    }
    assert(rs@.take(i as int) =~= rs@);
    v
}

/// The tallies of comment `cid`: each reaction type it received once, in order of
/// first appearance, with its count.
pub fn tallies(rs: &Vec<Reaction>, cid: &String) -> (ts: Vec<Tally>)
    ensures
        tallies_match(ts@, rs@, cid@),
{
    let mut ts: Vec<Tally> = Vec::new();
    let mut j: usize = 0;
    while j < rs.len()
        invariant
            j <= rs@.len(),
            forall|a: int, b: int| 0 <= a < b < ts@.len() ==> #[trigger] ts@[a].reaction_type@ != #[trigger] ts@[b].reaction_type@,
            forall|a: int| 0 <= a < ts@.len() ==> #[trigger] ts@[a].count == count_of(rs@, cid@, ts@[a].reaction_type@)
                && ts@[a].count > 0,
            forall|t: Seq<char>| #[trigger] count_of(rs@.take(j as int), cid@, t) > 0 ==> exists|a: int| 0 <= a < ts@.len()
                && #[trigger] ts@[a].reaction_type@ == t,
        decreases rs@.len() - j,
    {
        assert(rs@.take(j + 1).drop_last() =~= rs@.take(j as int));
        let ghost ts0 = ts@;
        if rs[j].comment_id == *cid {
            let t = &rs[j].reaction_type;
            let mut seen = false;
            let mut a: usize = 0;
            while a < ts.len()
                invariant
                    a <= ts@.len(),
                    seen ==> exists|b: int| 0 <= b < ts@.len() && #[trigger] ts@[b].reaction_type@ == t@,
                    !seen ==> forall|b: int| 0 <= b < a ==> #[trigger] ts@[b].reaction_type@ != t@,
                decreases ts@.len() - a,
            {
                if ts[a].reaction_type == *t {
                    seen = true;
                }
                a = a + 1;
            }
            if !seen {
                proof {
                    lemma_count_positive(rs@, j as int);
                }
                let c = tally(rs, cid, t);
                let ghost before = ts@;
                ts.push(Tally { reaction_type: t.clone(), count: c });
            }
        }
        proof {
            assert forall|u: Seq<char>| #[trigger] count_of(rs@.take(j + 1), cid@, u) > 0 implies exists|a: int| 0 <= a < ts@.len()
                && #[trigger] ts@[a].reaction_type@ == u by {
                assert(forall|a: int| 0 <= a < ts0.len() ==> ts@[a] == ts0[a]);
                if count_of(rs@.take(j as int), cid@, u) > 0 {
                    let a = choose|a: int| 0 <= a < ts0.len() && #[trigger] ts0[a].reaction_type@ == u;
                    assert(ts@[a] == ts0[a]);
                } else {
                    assert(rs@[j as int].comment_id@ == cid@ && rs@[j as int].reaction_type@ == u);
                    if ts@.len() > ts0.len() {
                        assert(ts@[ts@.len() - 1].reaction_type@ == u);
                    }
                }
            }
        }
        j = j + 1;
    }
    assert(rs@.take(j as int) =~= rs@);
    ts
}

/// The acting user's list for a comment holds a type exactly when some record gives
/// that comment that type from that user.
pub proof fn lemma_own_type_iff(rs: Seq<Reaction>, cid: Seq<char>, u: Seq<char>, t: Seq<char>)
    ensures
        own_types(rs, cid, Some(u)).contains(t) <==> exists|j: int| 0 <= j < rs.len()
            && #[trigger] rs[j].comment_id@ == cid && rs[j].user_id@ == u && rs[j].reaction_type@ == t,
    decreases rs.len(),
{
    if rs.len() > 0 {
        let init = rs.drop_last();
        lemma_own_type_iff(init, cid, u, t);
        let before = own_types(init, cid, Some(u));
        let r = rs.last();
        if own_types(rs, cid, Some(u)).contains(t) {
            if r.comment_id@ == cid && Some(u) == Some(r.user_id@) && r.reaction_type@ == t {
                assert(rs[rs.len() - 1].comment_id@ == cid);
            } else {
                if r.comment_id@ == cid && Some(u) == Some(r.user_id@) {
                    let k = choose|k: int| 0 <= k < before.push(r.reaction_type@).len() && before.push(r.reaction_type@)[k] == t;
                    assert(before[k] == t);
                }
                assert(before.contains(t));
                let j = choose|j: int| 0 <= j < init.len()
                    && #[trigger] init[j].comment_id@ == cid && init[j].user_id@ == u && init[j].reaction_type@ == t;
                assert(rs[j] == init[j]);
            }
        } else {
            assert forall|j: int| 0 <= j < rs.len() implies !(#[trigger] rs[j].comment_id@ == cid && rs[j].user_id@ == u
                && rs[j].reaction_type@ == t) by {
                if j < rs.len() - 1 {
                    assert(rs[j] == init[j]);
                    if init[j].comment_id@ == cid && init[j].user_id@ == u && init[j].reaction_type@ == t {
                        assert(before.contains(t));
                        if r.comment_id@ == cid && Some(u) == Some(r.user_id@) {
                            let k = choose|k: int| 0 <= k < before.len() && before[k] == t;
                            assert(before.push(r.reaction_type@)[k] == t);
                        }
                    }
                } else {
                    if r.comment_id@ == cid && r.user_id@ == u && r.reaction_type@ == t {
                        let v = before.push(r.reaction_type@);
                        assert(v[v.len() - 1] == t);
                    }
                }
            }
        }
    }
}

/// Without an acting user no comment carries a reaction of the user's own.
pub proof fn lemma_anonymous_empty(rs: Seq<Reaction>, cid: Seq<char>)
    ensures
        own_types(rs, cid, None) == Seq::<Seq<char>>::empty(),
    decreases rs.len(),
{
    if rs.len() > 0 {
        lemma_anonymous_empty(rs.drop_last(), cid);
    }
}

} // verus!
