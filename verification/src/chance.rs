//! What is left to chance: the order in which peers are drawn, and the identifier of a node
//! that was given none.
//!
//! What can come out of a draw is defined here and shown nowhere else. Outside this module only
//! the functions that draw say that something was drawn, so code whose contract asks for a
//! draw cannot do without one, for instance by taking the peers in the order of the table.

use vstd::prelude::*;
use crate::config::is_uuid_v4_text;
use crate::gossip::peer::Peer;

verus! {

/// `drawn` is what drawing the peers `listed` in a random order can come to: the same peers, in
/// any order.
pub closed spec fn is_draw(listed: Seq<(Seq<char>, Peer)>, drawn: Seq<(Seq<char>, Peer)>) -> bool {
    drawn.to_multiset() == listed.to_multiset()
}

/// `id` is what drawing a random identifier can come to: the text of any version 4 UUID.
pub closed spec fn is_drawn_id(id: Seq<char>) -> bool {
    is_uuid_v4_text(id)
}

/// Nobody is lost in a draw, and nobody drawn twice.
pub proof fn draws_keep_everyone(listed: Seq<(Seq<char>, Peer)>, drawn: Seq<(Seq<char>, Peer)>)
    requires
        is_draw(listed, drawn),
    ensures
        drawn.to_multiset() == listed.to_multiset(),
        drawn.len() == listed.len(),
        forall|e: (Seq<char>, Peer)| #[trigger] drawn.contains(e) <==> listed.contains(e),
{
    broadcast use vstd::seq_lib::group_to_multiset_ensures;

    assert(drawn.len() == drawn.to_multiset().len());
    assert(listed.len() == listed.to_multiset().len());
    assert forall|e: (Seq<char>, Peer)| #[trigger] drawn.contains(e) <==> listed.contains(e) by {
        assert(drawn.contains(e) <==> drawn.to_multiset().count(e) > 0);
        assert(listed.contains(e) <==> listed.to_multiset().count(e) > 0);
    }
}

/// An identifier that was drawn is the text of a version 4 UUID.
pub proof fn drawn_ids_are_uuids(id: Seq<char>)
    requires
        is_drawn_id(id),
    ensures
        is_uuid_v4_text(id),
{
}

} // verus!
