use vstd::prelude::*;

use crate::order::{id_less, id_lt, lemma_lt_irreflexive, lemma_lt_total, lemma_lt_transitive};
use crate::reactions::Tally;
use crate::skeleton::{nodes_wf, AssemblyError, Node, Skeleton};

verus! {

/// The display projection of a user profile.
pub struct UserJson {
    pub name: String,
    pub picture_url: String,
}

/// A user profile as the user store returns it.
pub struct UserRecord {
    pub id: String,
    pub name: String,
    pub picture_url: String,
}

/// One row of the user lookup table.
pub struct UserEntry {
    pub id: String,
    pub user: UserJson,
}

/// A comment as it is handed out: its author resolved and its replies nested.
pub struct CommentTree {
    pub id: String,
    pub body: String,
    pub user: UserJson,
    pub replies: Vec<CommentTree>,
    pub reactions: Vec<Tally>,
    pub user_reactions: Vec<String>,
}

/// Position of the row for `id` in the table; a later row wins over an earlier one.
pub open spec fn lookup(users: Seq<UserEntry>, id: Seq<char>) -> Option<int>
    decreases users.len(),
{
    if users.len() == 0 {
        None
    } else if users.last().id@ == id {
        Some(users.len() - 1)
    } else {
        lookup(users.drop_last(), id)
    }
}

pub proof fn lemma_lookup_in_range(users: Seq<UserEntry>, id: Seq<char>)
    ensures
        lookup(users, id) matches Some(k) ==> 0 <= k < users.len() && users[k].id@ == id,
    decreases users.len(),
{
    if users.len() > 0 {
        lemma_lookup_in_range(users.drop_last(), id);
    }
}

/// Keeps of each profile exactly its identifier, name and picture URL.
pub fn project_users(records: &Vec<UserRecord>) -> (table: Vec<UserEntry>)
    ensures
        table@.len() == records@.len(),
        forall|i: int| 0 <= i < records@.len() ==> {
            &&& #[trigger] table@[i].id@ == records@[i].id@
            &&& table@[i].user.name@ == records@[i].name@
            &&& table@[i].user.picture_url@ == records@[i].picture_url@
        },
{
    let mut table: Vec<UserEntry> = Vec::new();
    let mut i: usize = 0;
    while i < records.len()
        invariant
            i <= records@.len(),
            table@.len() == i,
            forall|q: int| 0 <= q < i ==> {
                &&& #[trigger] table@[q].id@ == records@[q].id@
                &&& table@[q].user.name@ == records@[q].name@
                &&& table@[q].user.picture_url@ == records@[q].picture_url@
            },
        decreases records@.len() - i,
    {
        let r = &records[i];
        table.push(UserEntry {
            id: r.id.clone(),
            user: UserJson { name: r.name.clone(), picture_url: r.picture_url.clone() },
        });
        i = i + 1;
    }
    table
}

/// Finds the row for `id`, as `lookup` does.
pub fn find_user(users: &Vec<UserEntry>, id: &String) -> (r: Option<usize>)
    ensures
        match r {
            Some(k) => lookup(users@, id@) == Some(k as int),
            None => lookup(users@, id@) is None,
        },
{
    let mut found: Option<usize> = None;
    let mut i: usize = 0;
    while i < users.len()
        invariant
            i <= users@.len(),
            match found {
                Some(k) => lookup(users@.take(i as int), id@) == Some(k as int),
                None => lookup(users@.take(i as int), id@) is None,
            },
        decreases users@.len() - i,
    {
        assert(users@.take(i + 1).drop_last() =~= users@.take(i as int));
        if users[i].id == *id {
            found = Some(i);
        }
        i = i + 1;
    }
    assert(users@.take(i as int) =~= users@);
    found
}

/// Some loaded comment is written by user `u`.
pub open spec fn is_author(ns: Seq<Node>, u: Seq<char>) -> bool {
    exists|i: int| 0 <= i < ns.len() && ns[i].user_id@ == u
}

/// `u` occurs in the list of user identifiers `v`.
pub open spec fn listed(v: Seq<String>, u: Seq<char>) -> bool {
    exists|k: int| 0 <= k < v.len() && v[k]@ == u
}

/// The distinct authors of the loaded comments, in order of first appearance.
pub fn author_ids(s: &Skeleton) -> (v: Vec<String>)
    ensures
        forall|a: int, b: int| 0 <= a < b < v@.len() ==> #[trigger] v@[a]@ != #[trigger] v@[b]@,
        forall|k: int| 0 <= k < v@.len() ==> is_author(s.nodes@, #[trigger] v@[k]@),
        forall|i: int| 0 <= i < s.nodes@.len() ==> listed(v@, #[trigger] s.nodes@[i].user_id@),
{
    let mut v: Vec<String> = Vec::new();
    let mut i: usize = 0;
    while i < s.nodes.len()
        invariant
            i <= s.nodes@.len(),
            forall|a: int, b: int| 0 <= a < b < v@.len() ==> #[trigger] v@[a]@ != #[trigger] v@[b]@,
            forall|k: int| 0 <= k < v@.len() ==> is_author(s.nodes@, #[trigger] v@[k]@),
            forall|q: int| 0 <= q < i ==> listed(v@, #[trigger] s.nodes@[q].user_id@),
        decreases s.nodes@.len() - i,
    {
        let u = &s.nodes[i].user_id;
        let mut seen = false;
        let mut k: usize = 0;
        while k < v.len()
            invariant
                k <= v@.len(),
                seen ==> listed(v@, u@),
                !seen ==> forall|b: int| 0 <= b < k ==> (#[trigger] v@[b])@ != u@,
            decreases v@.len() - k,
        {
            if v[k] == *u {
                seen = true;
            }
            k = k + 1;
        }
        if !seen {
            let ghost before = v@;
            v.push(u.clone());
            proof {
                assert(v@[v@.len() - 1]@ == s.nodes@[i as int].user_id@);
                assert forall|k: int| 0 <= k < v@.len() implies is_author(s.nodes@, #[trigger] v@[k]@) by {
                    if k < before.len() {
                        assert(v@[k] == before[k]);
                    }
                }
                assert forall|q: int| 0 <= q < i + 1 implies listed(v@, #[trigger] s.nodes@[q].user_id@) by {
                    if q < i {
                        assert(listed(before, s.nodes@[q].user_id@));
                        let k = choose|k: int| 0 <= k < before.len() && before[k]@ == s.nodes@[q].user_id@;
                        assert(v@[k] == before[k]);
                    } else {
                        assert(v@[v@.len() - 1]@ == s.nodes@[q].user_id@);
                    }
                }
                assert forall|a: int, b: int| 0 <= a < b < v@.len() implies #[trigger] v@[a]@ != #[trigger] v@[b]@ by {
                    assert(v@[a] == before[a]);
                    if b < before.len() {
                        assert(v@[b] == before[b]);
                    }
                }
            }
        }
        i = i + 1;
    }
    v
}

/// `ord` lists every root of the arena exactly once, in ascending identifier order.
pub open spec fn is_root_order(ns: Seq<Node>, ord: Seq<usize>) -> bool {
    &&& forall|k: int| 0 <= k < ord.len() ==> #[trigger] ord[k] < ns.len() && !ns[ord[k] as int].is_reply
    &&& forall|i: int| 0 <= i < ns.len() && !#[trigger] ns[i].is_reply ==> ord.contains(i as usize)
    &&& forall|a: int, b: int| 0 <= a < b < ord.len() ==> id_lt(
        ns[#[trigger] ord[a] as int].id@, ns[#[trigger] ord[b] as int].id@)
}

/// The root comments of the arena in ascending identifier order.
pub fn root_order(s: &Skeleton) -> (ord: Vec<usize>)
    requires
        s.wf(),
    ensures
        is_root_order(s.nodes@, ord@),
{
    let ns = &s.nodes;
    let mut ord: Vec<usize> = Vec::new();
    let mut i: usize = 0;
    while i < ns.len()
        invariant
            nodes_wf(ns@),
            i <= ns@.len(),
            forall|k: int| 0 <= k < ord@.len() ==> #[trigger] ord@[k] < i && !ns@[ord@[k] as int].is_reply,
            forall|q: int| 0 <= q < i && !#[trigger] ns@[q].is_reply ==> ord@.contains(q as usize),
            forall|a: int, b: int| 0 <= a < b < ord@.len() ==> id_lt(
                ns@[#[trigger] ord@[a] as int].id@, ns@[#[trigger] ord@[b] as int].id@),
        decreases ns@.len() - i,
    {
        if !ns[i].is_reply {
            let x = &ns[i].id;
            let mut p: usize = 0;
            while p < ord.len() && !id_less(x, &ns[ord[p]].id)
                invariant
                    nodes_wf(ns@),
                    i < ns@.len(),
                    x@ == ns@[i as int].id@,
                    p <= ord@.len(),
                    forall|k: int| 0 <= k < ord@.len() ==> #[trigger] ord@[k] < i,
                    forall|q: int| 0 <= q < p ==> id_lt(ns@[#[trigger] ord@[q] as int].id@, x@),
                decreases ord@.len() - p,
            {
                proof {
                    let y = ns@[ord@[p as int] as int].id@;
                    assert(y != x@);
                    lemma_lt_total(x@, y);
                }
                p = p + 1;
            }
            let ghost old_ord = ord@;
            ord.insert(p, i);
            proof {
                assert(ord@ == old_ord.insert(p as int, i));
                assert forall|a: int, b: int| 0 <= a < b < ord@.len() implies id_lt(
                    ns@[#[trigger] ord@[a] as int].id@, ns@[#[trigger] ord@[b] as int].id@) by {
                    if b < p {
                        assert(ord@[a] == old_ord[a] && ord@[b] == old_ord[b]);
                    } else if b == p {
                        assert(ord@[a] == old_ord[a]);
                    } else if a < p {
                        assert(ord@[a] == old_ord[a] && ord@[b] == old_ord[b - 1]);
                    } else if a == p {
                        assert(ord@[b] == old_ord[b - 1]);
                        let z = ns@[old_ord[p as int] as int].id@;
                        assert(id_lt(x@, z));
                        if b - 1 > p {
                            lemma_lt_transitive(x@, z, ns@[old_ord[b - 1] as int].id@);
                        }
                    } else {
                        assert(ord@[a] == old_ord[a - 1] && ord@[b] == old_ord[b - 1]);
                    }
                }
                assert forall|q: int| 0 <= q < i + 1 && !#[trigger] ns@[q].is_reply implies ord@.contains(q as usize) by {
                    if q < i {
                        let k = choose|k: int| 0 <= k < old_ord.len() && old_ord[k] == q as usize;
                        if k < p {
                            assert(ord@[k] == q as usize);
                        } else {
                            assert(ord@[k + 1] == q as usize);
                        }
                    } else {
                        assert(ord@[p as int] == i);
                    }
                }
            }
        }
        i = i + 1;
    }
    ord
}

/// `t` is the rendering of node `i`: its fields, its author's profile, and the
/// renderings of its replies in list order.
pub open spec fn renders(ns: Seq<Node>, users: Seq<UserEntry>, i: int, t: CommentTree) -> bool
    decreases ns.len() - i,
{
    if 0 <= i < ns.len() {
        let n = ns[i];
        let u = lookup(users, n.user_id@);
        &&& t.id@ == n.id@
        &&& t.body@ == n.body@
        &&& u is Some
        &&& t.user.name@ == users[u.unwrap()].user.name@
        &&& t.user.picture_url@ == users[u.unwrap()].user.picture_url@
        &&& t.reactions@ == n.reactions@
        &&& t.user_reactions@ == n.user_reactions@
        &&& t.replies@.len() == n.replies@.len()
        &&& forall|k: int| 0 <= k < t.replies@.len() ==> {
            let c = n.replies@[k] as int;
            i < c < ns.len() && renders(ns, users, c, #[trigger] t.replies@[k])
        }
    } else {
        false
    }
}

/// Every loaded comment's author has a row in the table.
pub open spec fn authors_resolved(ns: Seq<Node>, users: Seq<UserEntry>) -> bool {
    forall|i: int| 0 <= i < ns.len() ==> lookup(users, #[trigger] ns[i].user_id@) is Some
}

fn copy_tallies(v: &Vec<Tally>) -> (r: Vec<Tally>)
    ensures
        r@ == v@,
{
    let mut r: Vec<Tally> = Vec::new();
    let mut i: usize = 0;
    while i < v.len()
        invariant
            i <= v@.len(),
            r@ =~= v@.take(i as int),
        decreases v@.len() - i,
    {
        r.push(Tally { reaction_type: v[i].reaction_type.clone(), count: v[i].count });
        i = i + 1;
    }
    assert(v@.take(i as int) =~= v@);
    r
}

fn copy_strings(v: &Vec<String>) -> (r: Vec<String>)
    ensures
        r@ == v@,
{
    let mut r: Vec<String> = Vec::new();
    let mut i: usize = 0;
    while i < v.len()
        invariant
            i <= v@.len(),
            r@ =~= v@.take(i as int),
        decreases v@.len() - i,
    {
        r.push(v[i].clone());
        i = i + 1;
    }
    assert(v@.take(i as int) =~= v@);
    r
}

/// Renders node `i` and, depth first, every reply below it.
fn render(ns: &Vec<Node>, users: &Vec<UserEntry>, i: usize) -> (t: CommentTree)
    requires
        nodes_wf(ns@),
        i < ns@.len(),
        authors_resolved(ns@, users@),
    ensures
        renders(ns@, users@, i as int, t),
    decreases ns@.len() - i,
{
    let n = &ns[i];
    let found = find_user(users, &n.user_id);
    proof {
        assert(lookup(users@, ns@[i as int].user_id@) is Some);
        lemma_lookup_in_range(users@, n.user_id@);
    }
    let k = found.unwrap();
    let mut kids: Vec<CommentTree> = Vec::new();
    let mut j: usize = 0;
    while j < n.replies.len()
        invariant
            nodes_wf(ns@),
            i < ns@.len(),
            authors_resolved(ns@, users@),
            n == ns@[i as int],
            j <= n.replies@.len(),
            kids@.len() == j,
            forall|q: int| 0 <= q < j ==> {
                let c = n.replies@[q] as int;
                i < c < ns@.len() && renders(ns@, users@, c, #[trigger] kids@[q])
            },
        decreases n.replies@.len() - j,
    {
        let c = n.replies[j];
        assert(i < c < ns@.len());
        let t = render(ns, users, c);
        kids.push(t);
        j = j + 1;
    }
    CommentTree {
        id: n.id.clone(),
        body: n.body.clone(),
        user: UserJson { name: users[k].user.name.clone(), picture_url: users[k].user.picture_url.clone() },
        replies: kids,
        reactions: copy_tallies(&n.reactions),
        user_reactions: copy_strings(&n.user_reactions),
    }
}

/// Renders the whole tree: the root comments in ascending identifier order, each with
/// its replies nested. Fails if some comment's author has no profile.
pub fn serialize_tree(s: &Skeleton, users: &Vec<UserEntry>) -> (r: Result<Vec<CommentTree>, AssemblyError>)
    requires
        s.wf(),
    ensures
        r is Ok <==> authors_resolved(s.nodes@, users@),
        r matches Err(e) ==> (e matches AssemblyError::MissingUser(u) && exists|i: int|
            0 <= i < s.nodes@.len() && #[trigger] s.nodes@[i].user_id@ == u@ && lookup(users@, u@) is None),
        r matches Ok(ts) ==> exists|ord: Seq<usize>| {
            &&& is_root_order(s.nodes@, ord)
            &&& ts@.len() == ord.len()
            &&& forall|k: int| 0 <= k < ord.len() ==> renders(s.nodes@, users@, ord[k] as int, #[trigger] ts@[k])
        },
{
    let ns = &s.nodes;
    let mut i: usize = 0;
    while i < ns.len()
        invariant
            ns@ == s.nodes@,
            i <= ns@.len(),
            forall|q: int| 0 <= q < i ==> lookup(users@, #[trigger] ns@[q].user_id@) is Some,
        decreases ns@.len() - i,
    {
        let found = find_user(users, &ns[i].user_id);
        if found.is_none() {
            let u = ns[i].user_id.clone();
            proof {
                assert(lookup(users@, ns@[i as int].user_id@) is None);
                assert(!authors_resolved(ns@, users@));
                assert(s.nodes@[i as int].user_id@ == u@);
            }
            return Err(AssemblyError::MissingUser(u));
        }
        i = i + 1;
    }
    let ord = root_order(s);
    let mut out: Vec<CommentTree> = Vec::new();
    let mut k: usize = 0;
    while k < ord.len()
        invariant
            ns@ == s.nodes@,
            nodes_wf(ns@),
            authors_resolved(ns@, users@),
            is_root_order(ns@, ord@),
            k <= ord@.len(),
            out@.len() == k,
            forall|q: int| 0 <= q < k ==> renders(ns@, users@, ord@[q] as int, #[trigger] out@[q]),
        decreases ord@.len() - k,
    {
        assert(ord@[k as int] < ns@.len());
        let t = render(ns, users, ord[k]);
        out.push(t);
        k = k + 1;
    }
    Ok(out)
}

/// In a loaded tree no reply is orphaned: each sits in its parent's replies list.
/// Every root comment appears exactly once among the top-level comments.
pub proof fn lemma_tree_complete(ns: Seq<Node>, ord: Seq<usize>)
    requires
        nodes_wf(ns),
        is_root_order(ns, ord),
    ensures
        forall|i: int| 0 <= i < ns.len() && #[trigger] ns[i].is_reply ==> (ns[i].parent matches Some(p)
            && ns[p as int].replies@.contains(i as usize)),
        forall|i: int| 0 <= i < ns.len() && !#[trigger] ns[i].is_reply ==> ord.contains(i as usize),
        forall|a: int, b: int| 0 <= a < ord.len() && 0 <= b < ord.len() && a != b ==> #[trigger] ord[a] != #[trigger] ord[b],
{
    assert forall|i: int| 0 <= i < ns.len() && #[trigger] ns[i].is_reply implies (ns[i].parent matches Some(p)
        && ns[p as int].replies@.contains(i as usize)) by {
        let p = ns[i].parent.unwrap();
        assert(ns[i as int].parent == Some(p));
    }
    assert forall|a: int, b: int| 0 <= a < ord.len() && 0 <= b < ord.len() && a != b implies #[trigger] ord[a] != #[trigger] ord[b] by {
        lemma_lt_irreflexive(ns[ord[a] as int].id@);
        if a < b {
            assert(id_lt(ns[ord[a] as int].id@, ns[ord[b] as int].id@));
        } else {
            assert(id_lt(ns[ord[b] as int].id@, ns[ord[a] as int].id@));
        }
    }
}

/// `t1` and `t2` show the same thing for node `i`: the same identifier, body, author
/// profile, tallies and own reactions, and replies that agree pairwise.
pub open spec fn agree(ns: Seq<Node>, i: int, t1: CommentTree, t2: CommentTree) -> bool
    decreases ns.len() - i,
{
    if 0 <= i < ns.len() {
        &&& t1.id@ == t2.id@
        &&& t1.body@ == t2.body@
        &&& t1.user.name@ == t2.user.name@
        &&& t1.user.picture_url@ == t2.user.picture_url@
        &&& t1.reactions@ == t2.reactions@
        &&& t1.user_reactions@ == t2.user_reactions@
        &&& t1.replies@.len() == t2.replies@.len()
        &&& forall|k: int| 0 <= k < t1.replies@.len() ==> {
            let c = ns[i].replies@[k] as int;
            i < c < ns.len() && agree(ns, c, #[trigger] t1.replies@[k], t2.replies@[k])
        }
    } else {
        false
    }
}

pub proof fn lemma_render_determined(ns: Seq<Node>, users: Seq<UserEntry>, i: int, t1: CommentTree, t2: CommentTree)
    requires
        nodes_wf(ns),
        renders(ns, users, i, t1),
        renders(ns, users, i, t2),
    ensures
        agree(ns, i, t1, t2),
    decreases ns.len() - i,
{
    assert(0 <= i < ns.len());
    assert(t1.id@ == t2.id@);
    assert(t1.body@ == t2.body@);
    assert(t1.user.name@ == t2.user.name@);
    assert(t1.user.picture_url@ == t2.user.picture_url@);
    assert(t1.reactions@ == t2.reactions@);
    assert(t1.user_reactions@ == t2.user_reactions@);
    assert(t1.replies@.len() == t2.replies@.len());
    assert forall|k: int| 0 <= k < t1.replies@.len() implies {
        let c = ns[i].replies@[k] as int;
        i < c < ns.len() && agree(ns, c, #[trigger] t1.replies@[k], t2.replies@[k])
    } by {
        let c = ns[i].replies@[k] as int;
        assert(ns[i].replies@[k] as int == c);
        assert(i < c < ns.len());
        assert(renders(ns, users, c, t1.replies@[k]));
        assert(renders(ns, users, c, t2.replies@[k]));
        lemma_render_determined(ns, users, c, t1.replies@[k], t2.replies@[k]);
    }
}

/// Two lists of the roots in ascending identifier order are the same list.
pub proof fn lemma_root_order_unique(ns: Seq<Node>, o1: Seq<usize>, o2: Seq<usize>)
    requires
        nodes_wf(ns),
        is_root_order(ns, o1),
        is_root_order(ns, o2),
    ensures
        o1 == o2,
{
    lemma_sorted_unique(ns, o1, o2);
}

proof fn lemma_sorted_unique(ns: Seq<Node>, o1: Seq<usize>, o2: Seq<usize>)
    requires
        forall|k: int| 0 <= k < o1.len() ==> #[trigger] o1[k] < ns.len(),
        forall|k: int| 0 <= k < o2.len() ==> #[trigger] o2[k] < ns.len(),
        forall|x: usize| o1.contains(x) <==> o2.contains(x),
        forall|a: int, b: int| 0 <= a < b < o1.len() ==> id_lt(ns[#[trigger] o1[a] as int].id@, ns[#[trigger] o1[b] as int].id@),
        forall|a: int, b: int| 0 <= a < b < o2.len() ==> id_lt(ns[#[trigger] o2[a] as int].id@, ns[#[trigger] o2[b] as int].id@),
    ensures
        o1 == o2,
    decreases o1.len(),
{
    if o1.len() == 0 {
        if o2.len() > 0 {
            assert(o2.contains(o2[0]));
        }
        assert(o1 =~= o2);
    } else {
        if o2.len() == 0 {
            assert(o1.contains(o1[0]));
        }
        let x = o1[0];
        let y = o2[0];
        assert(o1.contains(x));
        assert(o2.contains(y));
        let j = choose|j: int| 0 <= j < o1.len() && o1[j] == y;
        let k = choose|k: int| 0 <= k < o2.len() && o2[k] == x;
        if x != y {
            assert(j > 0 && k > 0);
            assert(id_lt(ns[x as int].id@, ns[y as int].id@));
            assert(id_lt(ns[y as int].id@, ns[x as int].id@));
            lemma_lt_transitive(ns[x as int].id@, ns[y as int].id@, ns[x as int].id@);
            lemma_lt_irreflexive(ns[x as int].id@);
        }
        let t1 = o1.drop_first();
        let t2 = o2.drop_first();
        assert forall|z: usize| t1.contains(z) <==> t2.contains(z) by {
            if t1.contains(z) {
                let a = choose|a: int| 0 <= a < t1.len() && t1[a] == z;
                assert(o1[a + 1] == z);
                assert(o2.contains(z));
                let b = choose|b: int| 0 <= b < o2.len() && o2[b] == z;
                lemma_lt_irreflexive(ns[x as int].id@);
                assert(b != 0);
                assert(t2[b - 1] == z);
            }
            if t2.contains(z) {
                let b = choose|b: int| 0 <= b < t2.len() && t2[b] == z;
                assert(o2[b + 1] == z);
                assert(o1.contains(z));
                let a = choose|a: int| 0 <= a < o1.len() && o1[a] == z;
                lemma_lt_irreflexive(ns[y as int].id@);
                assert(a != 0);
                assert(t1[a - 1] == z);
            }
        }
        assert forall|a: int, b: int| 0 <= a < b < t1.len() implies id_lt(ns[#[trigger] t1[a] as int].id@, ns[#[trigger] t1[b] as int].id@) by {
            assert(t1[a] == o1[a + 1] && t1[b] == o1[b + 1]);
        }
        assert forall|a: int, b: int| 0 <= a < b < t2.len() implies id_lt(ns[#[trigger] t2[a] as int].id@, ns[#[trigger] t2[b] as int].id@) by {
            assert(t2[a] == o2[a + 1] && t2[b] == o2[b + 1]);
        }
        lemma_sorted_unique(ns, t1, t2);
        assert(o1 =~= seq![x] + t1);
        assert(o2 =~= seq![y] + t2);
    }
}

/// Rendering is a function of the arena and the user table: two outputs that both
/// meet the contract of `serialize_tree` list the same comments, and agree on each.
pub proof fn lemma_output_determined(
    ns: Seq<Node>,
    users: Seq<UserEntry>,
    o1: Seq<usize>,
    ts1: Seq<CommentTree>,
    o2: Seq<usize>,
    ts2: Seq<CommentTree>,
)
    requires
        nodes_wf(ns),
        is_root_order(ns, o1),
        is_root_order(ns, o2),
        ts1.len() == o1.len(),
        ts2.len() == o2.len(),
        forall|k: int| 0 <= k < o1.len() ==> renders(ns, users, o1[k] as int, #[trigger] ts1[k]),
        forall|k: int| 0 <= k < o2.len() ==> renders(ns, users, o2[k] as int, #[trigger] ts2[k]),
    ensures
        o1 == o2,
        ts1.len() == ts2.len(),
        forall|k: int| 0 <= k < ts1.len() ==> agree(ns, o1[k] as int, #[trigger] ts1[k], ts2[k]),
{
    lemma_root_order_unique(ns, o1, o2);
    assert forall|k: int| 0 <= k < ts1.len() implies agree(ns, o1[k] as int, #[trigger] ts1[k], ts2[k]) by {
        assert(renders(ns, users, o2[k] as int, ts2[k]));
        lemma_render_determined(ns, users, o1[k] as int, ts1[k], ts2[k]);
    }
}

} // verus!
