use vstd::prelude::*;

use crate::reactions::{opt_view, own_types, tallies_match, Reaction};
use crate::skeleton::{aggregate_reactions, annotated, load_comments, node_of, nodes_wf, parents_precede, AssemblyError, CommentRecord, Node};
use crate::tree::{is_root_order, lookup, renders, serialize_tree, CommentTree, UserEntry};

verus! {

/// `ns` is the annotated arena of `recs`: one node per record in the same order,
/// linked to the parent each reply names, with its reactions folded in.
pub open spec fn skeleton_of(ns: Seq<Node>, recs: Seq<CommentRecord>, rs: Seq<Reaction>, acting: Option<Seq<char>>) -> bool {
    &&& nodes_wf(ns)
    &&& ns.len() == recs.len()
    &&& forall|i: int| 0 <= i < recs.len() ==> {
        &&& (#[trigger] ns[i]).id@ == recs[i].id@
        &&& ns[i].body@ == recs[i].body@
        &&& ns[i].user_id@ == recs[i].user_id@
        &&& ns[i].is_reply == recs[i].replies_to is Some
        &&& match recs[i].replies_to {
            Some(t) => ns[i].parent matches Some(p) && recs[p as int].id@ == t@,
            None => ns[i].parent is None,
        }
        &&& tallies_match(ns[i].reactions@, rs, recs[i].id@)
        &&& ns[i].user_reactions@.map_values(|s: String| s@) == own_types(rs, recs[i].id@, acting)
    }
}

/// Every comment author of the batch has a profile in the table.
pub open spec fn records_resolved(recs: Seq<CommentRecord>, users: Seq<UserEntry>) -> bool {
    forall|i: int| 0 <= i < recs.len() ==> lookup(users, #[trigger] recs[i].user_id@) is Some
}

/// The whole assembly: loads the comment batch, folds in the reactions for the acting
/// user, and renders the tree against the user table.
pub fn assemble(
    recs: &Vec<CommentRecord>,
    users: &Vec<UserEntry>,
    rs: &Vec<Reaction>,
    acting: &Option<String>,
) -> (r: Result<Vec<CommentTree>, AssemblyError>)
    ensures
        r is Ok <==> parents_precede(recs@) && records_resolved(recs@, users@),
        !parents_precede(recs@) ==> !(r matches Err(AssemblyError::MissingUser(_))),
        r matches Ok(ts) ==> exists|ns: Seq<Node>, ord: Seq<usize>| {
            &&& skeleton_of(ns, recs@, rs@, opt_view(*acting))
            &&& is_root_order(ns, ord)
            &&& ts@.len() == ord.len()
            &&& forall|k: int| 0 <= k < ord.len() ==> renders(ns, users@, ord[k] as int, #[trigger] ts@[k])
        },
{
    let mut s = match load_comments(recs) {
        Ok(s) => s,
        Err(e) => {
            return Err(e);
        },
    };
    let ghost loaded = s.nodes@;
    aggregate_reactions(&mut s, rs, acting);
    proof {
        assert forall|i: int| 0 <= i < recs@.len() implies (lookup(users@, #[trigger] recs@[i].user_id@) is Some
            <==> lookup(users@, s.nodes@[i].user_id@) is Some) by {
            assert(node_of(loaded[i], recs@[i]));
            assert(annotated(s.nodes@[i], loaded[i], rs@, opt_view(*acting)));
        }
        assert forall|i: int| 0 <= i < recs@.len() implies {
            &&& (#[trigger] s.nodes@[i]).id@ == recs@[i].id@
            &&& s.nodes@[i].body@ == recs@[i].body@
            &&& s.nodes@[i].user_id@ == recs@[i].user_id@
            &&& s.nodes@[i].is_reply == recs@[i].replies_to is Some
            &&& match recs@[i].replies_to {
                Some(t) => s.nodes@[i].parent matches Some(p) && recs@[p as int].id@ == t@,
                None => s.nodes@[i].parent is None,
            }
            &&& tallies_match(s.nodes@[i].reactions@, rs@, recs@[i].id@)
            &&& s.nodes@[i].user_reactions@.map_values(|x: String| x@) == own_types(rs@, recs@[i].id@, opt_view(*acting))
        } by {
            assert(node_of(loaded[i], recs@[i]));
            assert(annotated(s.nodes@[i], loaded[i], rs@, opt_view(*acting)));
            assert(match recs@[i].replies_to {
                Some(t) => loaded[i].parent matches Some(p) && recs@[p as int].id@ == t@,
                None => loaded[i].parent is None,
            });
        }
        assert(skeleton_of(s.nodes@, recs@, rs@, opt_view(*acting)));
    }
    serialize_tree(&s, users)
}

} // verus!
