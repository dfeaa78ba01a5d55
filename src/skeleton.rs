use vstd::prelude::*;

use crate::reactions::{opt_view, own_types, tallies, tallies_match, user_reactions, Reaction, Tally};

verus! {

/// A stored comment as it comes from the comment store.
pub struct CommentRecord {
    pub id: String,
    pub user_id: String,
    pub body: String,
    pub replies_to: Option<String>,
}

/// A comment of the working tree. Replies and the parent are arena indices.
pub struct Node {
    pub id: String,
    pub body: String,
    pub user_id: String,
    pub is_reply: bool,
    pub parent: Option<usize>,
    pub replies: Vec<usize>,
    pub reactions: Vec<Tally>,
    pub user_reactions: Vec<String>,
}

/// The comment tree of one resource, as an arena of nodes in load order.
pub struct Skeleton {
    pub nodes: Vec<Node>,
}

/// A consistency violation found while assembling the tree.
pub enum AssemblyError {
    DuplicateComment(String),
    MissingParent(String),
    MissingUser(String),
}

/// Some record before position `i` has identifier `id`.
pub open spec fn earlier(recs: Seq<CommentRecord>, i: int, id: Seq<char>) -> bool {
    exists|j: int| 0 <= j < i && #[trigger] recs[j].id@ == id
}

/// Record `i` has a fresh identifier and, if it is a reply, its target came before it.
pub open spec fn record_ok(recs: Seq<CommentRecord>, i: int) -> bool {
    &&& !earlier(recs, i, recs[i].id@)
    &&& match recs[i].replies_to {
        None => true,
        Some(p) => earlier(recs, i, p@),
    }
}

/// Every parent is loaded before its replies and no identifier repeats.
pub open spec fn parents_precede(recs: Seq<CommentRecord>) -> bool {
    forall|i: int| 0 <= i < recs.len() ==> #[trigger] record_ok(recs, i)
}

/// The arena's links are consistent: parents come first, each node's replies list
/// holds exactly the nodes whose parent it is, in increasing order, and identifiers
/// are distinct.
pub open spec fn nodes_wf(ns: Seq<Node>) -> bool {
    &&& forall|i: int| 0 <= i < ns.len() ==> match #[trigger] ns[i].parent {
        Some(p) => p < i && ns[i].is_reply,
        None => !ns[i].is_reply,
    }
    &&& forall|i: int, k: int| 0 <= i < ns.len() && 0 <= k < ns[i].replies@.len() ==> {
        let c = #[trigger] ns[i].replies@[k] as int;
        i < c < ns.len() && ns[c].parent == Some(i as usize)
    }
    &&& forall|i: int, c: int| 0 <= i < ns.len() && 0 <= c < ns.len() && #[trigger] ns[c].parent == Some(i as usize)
        ==> #[trigger] ns[i].replies@.contains(c as usize)
    &&& forall|i: int, a: int, b: int| 0 <= i < ns.len() && 0 <= a < b < ns[i].replies@.len()
        ==> #[trigger] ns[i].replies@[a] < #[trigger] ns[i].replies@[b]
    &&& forall|a: int, b: int| 0 <= a < ns.len() && 0 <= b < ns.len() && a != b
        ==> #[trigger] ns[a].id@ != #[trigger] ns[b].id@
}

impl Skeleton {
    pub open spec fn wf(&self) -> bool {
        nodes_wf(self.nodes@)
    }

    /// The empty tree: no comments loaded yet.
    pub fn new() -> (s: Skeleton)
        ensures
            s.nodes@.len() == 0,
            s.wf(),
    {
        Skeleton { nodes: Vec::new() }
    }
}

/// Node `n` carries record `r` as loaded, with no reactions yet.
pub open spec fn node_of(n: Node, r: CommentRecord) -> bool {
    &&& n.id@ == r.id@
    &&& n.body@ == r.body@
    &&& n.user_id@ == r.user_id@
    &&& n.is_reply == r.replies_to is Some
    &&& n.reactions@.len() == 0
    &&& n.user_reactions@.len() == 0
}

/// Node `m` is node `n` with its reactions folded in from `rs` for the acting user.
pub open spec fn annotated(m: Node, n: Node, rs: Seq<Reaction>, acting: Option<Seq<char>>) -> bool {
    &&& m.id == n.id
    &&& m.body == n.body
    &&& m.user_id == n.user_id
    &&& m.is_reply == n.is_reply
    &&& m.parent == n.parent
    &&& m.replies == n.replies
    &&& tallies_match(m.reactions@, rs, n.id@)
    &&& m.user_reactions@.map_values(|s: String| s@) == own_types(rs, n.id@, acting)
}

/// Folds the reaction records of the resource into per-comment tallies, and records
/// for each comment the types the acting user gave it. Records that target no loaded
/// comment have no effect.
pub fn aggregate_reactions(s: &mut Skeleton, rs: &Vec<Reaction>, acting: &Option<String>)
    ensures
        final(s).nodes@.len() == old(s).nodes@.len(),
        forall|i: int| 0 <= i < old(s).nodes@.len() ==> annotated(
            #[trigger] final(s).nodes@[i], old(s).nodes@[i], rs@, opt_view(*acting)),
        old(s).wf() ==> final(s).wf(),
{
    let ghost orig = s.nodes@;
    let mut rest: Vec<Node> = Vec::new();
    std::mem::swap(&mut rest, &mut s.nodes);
    let n = rest.len();
    let mut out: Vec<Node> = Vec::new();
    let mut i: usize = 0;
    while i < n
        invariant
            n == orig.len(),
            i <= n,
            rest@.len() == n - i,
            out@.len() == i,
            forall|q: int| 0 <= q < n - i ==> #[trigger] rest@[q] == orig[q + i],
            forall|q: int| 0 <= q < i ==> annotated(#[trigger] out@[q], orig[q], rs@, opt_view(*acting)),
        decreases n - i,
    {
        let node = rest.remove(0);
        assert(node == orig[i as int]);
        let ts = tallies(rs, &node.id);
        let mine = user_reactions(rs, &node.id, acting);
        let node = Node { reactions: ts, user_reactions: mine, ..node };
        out.push(node);
        i = i + 1;
    }
    s.nodes = out;
    proof {
        let ns = s.nodes@;
        assert forall|q: int| 0 <= q < n implies #[trigger] ns[q].parent == orig[q].parent && ns[q].replies == orig[q].replies
            && ns[q].id == orig[q].id && ns[q].is_reply == orig[q].is_reply by {
            assert(annotated(ns[q], orig[q], rs@, opt_view(*acting)));
        }
        if nodes_wf(orig) {
            assert forall|q: int, k: int| 0 <= q < n && 0 <= k < ns[q].replies@.len() implies {
                let c = #[trigger] ns[q].replies@[k] as int;
                q < c < n && ns[c].parent == Some(q as usize)
            } by {
                assert(ns[q].parent == orig[q].parent);
                let c = orig[q].replies@[k] as int;
                assert(ns[c].parent == orig[c].parent);
            }
            assert forall|q: int, c: int| 0 <= q < n && 0 <= c < n && #[trigger] ns[c].parent == Some(q as usize)
                implies #[trigger] ns[q].replies@.contains(c as usize) by {
                assert(ns[q].parent == orig[q].parent);
                assert(ns[c].parent == orig[c].parent);
            }
            assert forall|q: int, a: int, b: int| 0 <= q < n && 0 <= a < b < ns[q].replies@.len()
                implies #[trigger] ns[q].replies@[a] < #[trigger] ns[q].replies@[b] by {
                assert(ns[q].parent == orig[q].parent);
            }
            assert forall|a: int, b: int| 0 <= a < n && 0 <= b < n && a != b
                implies #[trigger] ns[a].id@ != #[trigger] ns[b].id@ by {
                assert(ns[a].parent == orig[a].parent);
                assert(ns[b].parent == orig[b].parent);
            }
        }
    }
}

/// Index of a node before `upto` whose identifier is `id`.
fn find_before(ns: &Vec<Node>, upto: usize, id: &String) -> (r: Option<usize>)
    requires
        upto <= ns@.len(),
    ensures
        match r {
            Some(j) => j < upto && ns@[j as int].id@ == id@,
            None => forall|j: int| 0 <= j < upto ==> ns@[j].id@ != id@,
        },
{
    let mut j: usize = 0;
    while j < upto
        invariant
            upto <= ns@.len(),
            forall|q: int| 0 <= q < j ==> ns@[q].id@ != id@,
        decreases upto - j,
    {
        if ns[j].id == *id {
            return Some(j);
        }
        j = j + 1;
    }
    None
}

/// Builds the tree skeleton of a batch of comment records, processed in the order
/// given: each reply is linked to a parent loaded before it.
pub fn load_comments(recs: &Vec<CommentRecord>) -> (r: Result<Skeleton, AssemblyError>)
    ensures
        r is Ok <==> parents_precede(recs@),
        r matches Err(AssemblyError::DuplicateComment(d)) ==> exists|i: int|
            0 <= i < recs@.len() && #[trigger] recs@[i].id@ == d@ && earlier(recs@, i, d@),
        r matches Err(AssemblyError::MissingParent(p)) ==> exists|i: int|
            0 <= i < recs@.len() && #[trigger] recs@[i].replies_to == Some(p) && !earlier(recs@, i, p@),
        !(r matches Err(AssemblyError::MissingUser(_))),
        r matches Ok(s) ==> {
            &&& s.wf()
            &&& s.nodes@.len() == recs@.len()
            &&& forall|i: int| 0 <= i < recs@.len() ==> node_of(#[trigger] s.nodes@[i], recs@[i])
            &&& forall|i: int| 0 <= i < recs@.len() ==> match #[trigger] recs@[i].replies_to {
                Some(t) => s.nodes@[i].parent matches Some(p) && recs@[p as int].id@ == t@,
                None => s.nodes@[i].parent is None,
            }
        },
{
    let n = recs.len();
    let mut ns: Vec<Node> = Vec::new();
    let mut i: usize = 0;
    while i < n
        invariant
            n == recs@.len(),
            i <= n,
            ns@.len() == i,
            forall|q: int| 0 <= q < i ==> #[trigger] record_ok(recs@, q),
            forall|q: int| 0 <= q < i ==> node_of(#[trigger] ns@[q], recs@[q]),
            forall|q: int| 0 <= q < i ==> #[trigger] ns@[q].replies@.len() == 0,
            forall|a: int, b: int| 0 <= a < i && 0 <= b < i && a != b
                ==> #[trigger] ns@[a].id@ != #[trigger] ns@[b].id@,
            forall|q: int| 0 <= q < i ==> match #[trigger] ns@[q].parent {
                Some(p) => p < q && ns@[q].is_reply && recs@[q].replies_to is Some
                    && recs@[p as int].id@ == recs@[q].replies_to->0@,
                None => !ns@[q].is_reply && recs@[q].replies_to is None,
            },
        decreases n - i,
    {
        let rec = &recs[i];
        if let Some(j) = find_before(&ns, i, &rec.id) {
            proof {
                assert(node_of(ns@[j as int], recs@[j as int]));
                assert(recs@[j as int].id@ == rec.id@);
                assert(earlier(recs@, i as int, rec.id@));
                assert(!record_ok(recs@, i as int));
            }
            return Err(AssemblyError::DuplicateComment(rec.id.clone()));
        }
        let parent = match &rec.replies_to {
            Some(t) => {
                match find_before(&ns, i, t) {
                    Some(p) => Some(p),
                    None => {
                        proof {
                            assert forall|q: int| 0 <= q < i implies #[trigger] recs@[q].id@ != t@ by {
                                assert(node_of(ns@[q], recs@[q]));
                            }
                            assert(!earlier(recs@, i as int, t@));
                            assert(!record_ok(recs@, i as int));
                        }
                        return Err(AssemblyError::MissingParent(t.clone()));
                    },
                }
            },
            None => None,
        };
        ns.push(Node {
            id: rec.id.clone(),
            body: rec.body.clone(),
            user_id: rec.user_id.clone(),
            is_reply: parent.is_some(),
            parent,
            replies: Vec::new(),
            reactions: Vec::new(),
            user_reactions: Vec::new(),
        });
        proof {
            assert forall|q: int| 0 <= q < i implies #[trigger] recs@[q].id@ != rec.id@ by {
                assert(node_of(ns@[q], recs@[q]));
            }
            if rec.replies_to is Some {
                let p = parent.unwrap();
                assert(node_of(ns@[p as int], recs@[p as int]));
            }
            assert(record_ok(recs@, i as int));
            assert(node_of(ns@[i as int], recs@[i as int]));
        }
        i = i + 1;
    }
    let ghost before = ns@;
    link_replies(&mut ns);
    proof {
        assert forall|q: int| 0 <= q < n implies node_of(#[trigger] ns@[q], recs@[q]) by {
            assert(node_of(before[q], recs@[q]));
            assert(same_but_replies(ns@[q], before[q]));
        }
    }
    Ok(Skeleton { nodes: ns })
}

/// Node `m` equals node `n` in every field but its replies list.
pub open spec fn same_but_replies(m: Node, n: Node) -> bool {
    &&& m.id == n.id
    &&& m.body == n.body
    &&& m.user_id == n.user_id
    &&& m.is_reply == n.is_reply
    &&& m.parent == n.parent
    &&& m.reactions == n.reactions
    &&& m.user_reactions == n.user_reactions
}

/// Fills each node's replies list with the nodes whose parent it is, in index order.
#[verifier::spinoff_prover]
#[verifier::rlimit(30)]
fn link_replies(ns: &mut Vec<Node>)
    requires
        forall|q: int| 0 <= q < old(ns)@.len() ==> #[trigger] old(ns)@[q].replies@.len() == 0,
        forall|q: int| 0 <= q < old(ns)@.len() ==> match #[trigger] old(ns)@[q].parent {
            Some(p) => p < q && old(ns)@[q].is_reply,
            None => !old(ns)@[q].is_reply,
        },
        forall|a: int, b: int| 0 <= a < old(ns)@.len() && 0 <= b < old(ns)@.len() && a != b
            ==> #[trigger] old(ns)@[a].id@ != #[trigger] old(ns)@[b].id@,
    ensures
        nodes_wf(final(ns)@),
        final(ns)@.len() == old(ns)@.len(),
        forall|q: int| 0 <= q < old(ns)@.len() ==> same_but_replies(#[trigger] final(ns)@[q], old(ns)@[q]),
{
    let n = ns.len();
    let mut out: Vec<Node> = Vec::new();
    let ghost orig = old(ns)@;
    let mut i: usize = 0;
    while i < n
        invariant
            n == orig.len(),
            forall|q: int| 0 <= q < orig.len() ==> match #[trigger] orig[q].parent {
                Some(p) => p < q && orig[q].is_reply,
                None => !orig[q].is_reply,
            },
            forall|a: int, b: int| 0 <= a < orig.len() && 0 <= b < orig.len() && a != b
                ==> #[trigger] orig[a].id@ != #[trigger] orig[b].id@,
            ns@.len() == n - i,
            i <= n,
            out@.len() == i,
            forall|q: int| 0 <= q < n - i ==> #[trigger] ns@[q] == orig[q + i],
            forall|q: int| 0 <= q < i ==> same_but_replies(#[trigger] out@[q], orig[q]),
            forall|q: int, k: int| 0 <= q < i && 0 <= k < out@[q].replies@.len() ==> {
                let c = #[trigger] out@[q].replies@[k] as int;
                q < c < n && orig[c].parent == Some(q as usize)
            },
            forall|q: int, c: int| 0 <= q < i && 0 <= c < n && #[trigger] orig[c].parent == Some(q as usize)
                ==> #[trigger] out@[q].replies@.contains(c as usize),
            forall|q: int, a: int, b: int| 0 <= q < i && 0 <= a < b < out@[q].replies@.len()
                ==> #[trigger] out@[q].replies@[a] < #[trigger] out@[q].replies@[b],
        decreases n - i,
    {
        let node = ns.remove(0);
        assert(node == orig[i as int]);
        let mut kids: Vec<usize> = Vec::new();
        let mut c: usize = i + 1;
        while c < n
            invariant
                i < c <= n,
                n == orig.len(),
                node == orig[i as int],
                forall|q: int| 0 <= q < orig.len() ==> match #[trigger] orig[q].parent {
                    Some(p) => p < q && orig[q].is_reply,
                    None => !orig[q].is_reply,
                },
                forall|a: int, b: int| 0 <= a < orig.len() && 0 <= b < orig.len() && a != b
                    ==> #[trigger] orig[a].id@ != #[trigger] orig[b].id@,

                ns@.len() == n - i - 1,
                forall|q: int| 0 <= q < n - i - 1 ==> #[trigger] ns@[q] == orig[q + i + 1],
                forall|k: int| 0 <= k < kids@.len() ==> {
                    let x = #[trigger] kids@[k] as int;
                    i < x < c && orig[x].parent == Some(i)
                },
                forall|x: int| i < x < c && #[trigger] orig[x].parent == Some(i) ==> kids@.contains(x as usize),
                forall|a: int, b: int| 0 <= a < b < kids@.len() ==> #[trigger] kids@[a] < #[trigger] kids@[b],
                forall|k: int| 0 <= k < kids@.len() ==> #[trigger] kids@[k] < c,
            decreases n - c,
        {
            let is_child = match ns[c - i - 1].parent {
                Some(p) => p == i,
                None => false,
            };
            if is_child {
                let ghost old_kids = kids@;
                kids.push(c);
                proof {
                    assert forall|k: int| 0 <= k < old_kids.len() implies #[trigger] kids@[k] == old_kids[k] by {}
                    assert forall|x: int| i < x < c + 1 && #[trigger] orig[x].parent == Some(i) implies kids@.contains(x as usize) by {
                        if x == c {
                            assert(kids@[kids@.len() - 1] == c);
                        } else {
                            assert(old_kids.contains(x as usize));
                            let k = choose|k: int| 0 <= k < old_kids.len() && old_kids[k] == x as usize;
                            assert(kids@[k] == x as usize);
                        }
                    }
                }
            }
            c = c + 1;
        }
        proof {
            assert forall|x: int| 0 <= x < n && #[trigger] orig[x].parent == Some(i) implies kids@.contains(x as usize) by {
                if x <= i {
                    assert(orig[x].parent.unwrap() < x);
                }
            }
        }
        let node = Node { replies: kids, ..node };
        out.push(node);
        i = i + 1;
    }
    *ns = out;
    proof {
        let ns2 = ns@;
        assert forall|a: int, b: int| 0 <= a < n && 0 <= b < n && a != b
            implies #[trigger] ns2[a].id@ != #[trigger] ns2[b].id@ by {
            assert(orig[a].id@ != orig[b].id@);
        }
        assert forall|q: int| 0 <= q < n implies match #[trigger] ns2[q].parent {
            Some(p) => p < q && ns2[q].is_reply,
            None => !ns2[q].is_reply,
        } by {
            assert(same_but_replies(ns2[q], orig[q]));
        }
        assert forall|q: int, k: int| 0 <= q < n && 0 <= k < ns2[q].replies@.len() implies {
            let c = #[trigger] ns2[q].replies@[k] as int;
            q < c < n && ns2[c].parent == Some(q as usize)
        } by {
            let c = ns2[q].replies@[k] as int;
            assert(same_but_replies(ns2[c], orig[c]));
        }
        assert forall|q: int, c: int| 0 <= q < n && 0 <= c < n && #[trigger] ns2[c].parent == Some(q as usize)
            implies #[trigger] ns2[q].replies@.contains(c as usize) by {
            assert(same_but_replies(ns2[c], orig[c]));
        }
        assert forall|q: int| 0 <= q < n implies same_but_replies(#[trigger] ns2[q], orig[q]) by {
            assert(same_but_replies(ns2[q], orig[q]));
        }
    }
}

} // verus!
