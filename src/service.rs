//! Construction of a client node: its neighbours are checked once, before
//! the engine starts.
use vstd::prelude::*;
use vstd::string::StringExecFns;
use crate::packet::{Message, NodeType};
use crate::router::Router;

verus! {

/// The character of a decimal digit.
pub open spec fn digit_char(d: nat) -> char {
    seq!['0', '1', '2', '3', '4', '5', '6', '7', '8', '9'][d as int]
}

/// The decimal digits of `n`, most significant first.
pub open spec fn decimal(n: nat) -> Seq<char>
    decreases n,
{
    if n < 10 {
        seq![digit_char(n)]
    } else {
        decimal(n / 10).push(digit_char(n % 10))
    }
}

/// The message that rejects a node naming itself as a neighbour.
pub open spec fn own_id_message() -> Seq<char> {
    "Own ID is used as a recipient."@
}

/// The message that rejects a node with `count` neighbours.
pub open spec fn neighbor_count_text(count: nat) -> Seq<char> {
    "There are "@ + decimal(count) + " drones connected when the there must be 1-2 connected drones."@
}

/// The one-character string of digit `d`.
fn digit_str(d: usize) -> (r: &'static str)
    requires
        d < 10,
    ensures
        r@ == seq![digit_char(d as nat)],
{
    proof {
        reveal_strlit("0");
        reveal_strlit("1");
        reveal_strlit("2");
        reveal_strlit("3");
        reveal_strlit("4");
        reveal_strlit("5");
        reveal_strlit("6");
        reveal_strlit("7");
        reveal_strlit("8");
        reveal_strlit("9");
    }
    if d == 0 {
        "0"
    } else if d == 1 {
        "1"
    } else if d == 2 {
        "2"
    } else if d == 3 {
        "3"
    } else if d == 4 {
        "4"
    } else if d == 5 {
        "5"
    } else if d == 6 {
        "6"
    } else if d == 7 {
        "7"
    } else if d == 8 {
        "8"
    } else {
        "9"
    }
}

/// Appends the decimal digits of `n` to `s`.
fn append_decimal(s: &mut String, n: usize)
    ensures
        final(s)@ == old(s)@ + decimal(n as nat),
    decreases n,
{
    if n >= 10 {
        append_decimal(s, n / 10);
    }
    s.append(digit_str(n % 10));
    proof {
        if n >= 10 {
            assert(old(s)@ + decimal(n as nat) =~= old(s)@ + decimal((n / 10) as nat) + seq![
                digit_char((n % 10) as nat),
            ]);
        } else {
            assert(old(s)@ + decimal(n as nat) =~= old(s)@ + seq![digit_char((n % 10) as nat)]);
        }
    }
}

/// The message that rejects a node with `count` neighbours.
fn neighbor_count_message(count: usize) -> (r: String)
    ensures
        r@ == neighbor_count_text(count as nat),
{
    let mut s = String::new();
    s.append("There are ");
    append_decimal(&mut s, count);
    s.append(" drones connected when the there must be 1-2 connected drones.");
    proof {
        reveal_strlit("There are ");
        reveal_strlit(" drones connected when the there must be 1-2 connected drones.");
    }
    assert(s@ =~= neighbor_count_text(count as nat));
    s
}

/// The answer to the application's request for the known clients and
/// servers.
#[derive(Clone, Debug, PartialEq, Eq)]
pub struct ListOfDiscoveredEdgeNodes(pub Vec<(u8, NodeType)>);

/// The answer to the application's request for unread messages.
#[derive(Clone, Debug, PartialEq, Eq)]
pub struct UnreadMessagesFromServer(pub Vec<Message>);

/// The clients that a server reported.
#[derive(Clone, Debug, PartialEq, Eq)]
pub struct ClientsFromServer(pub Vec<u8>);

/// A client node, ready to run.
pub struct Service {
    pub router: Router,
}

impl Service {
    /// Checks the neighbours of node `node_id`: it must not name itself, and
    /// it must have one or two neighbours.
    pub fn validate_options(neighbors: &Vec<u8>, node_id: u8) -> (r: Result<(), String>)
        ensures
            neighbors@.contains(node_id) ==> (r matches Err(e) && e@ == own_id_message()),
            !neighbors@.contains(node_id) && (neighbors@.len() == 0 || neighbors@.len() > 2)
                ==> (r matches Err(e) && e@ == neighbor_count_text(neighbors@.len())),
            !neighbors@.contains(node_id) && 1 <= neighbors@.len() <= 2 ==> r is Ok,
    {
        let mut i: usize = 0;
        while i < neighbors.len()
            invariant
                i <= neighbors@.len(),
                forall|m: int| 0 <= m < i ==> neighbors@[m] != node_id,
            decreases neighbors@.len() - i,
        {
            if neighbors[i] == node_id {
                proof {
                    reveal_strlit("Own ID is used as a recipient.");
                }
                return Err("Own ID is used as a recipient.".to_owned());
            }
            i += 1;
        }
        if neighbors.len() > 2 || neighbors.len() == 0 {
            return Err(neighbor_count_message(neighbors.len()));
        }
        Ok(())
    }

    /// A node with id `node_id` and these neighbours, once they pass
    /// `validate_options`.
    pub fn new(node_id: u8, neighbors: &Vec<u8>) -> (r: Result<Service, String>)
        requires
            neighbors@.no_duplicates(),
        ensures
            match r {
                Ok(s) => !neighbors@.contains(node_id) && 1 <= neighbors@.len() <= 2 && s.router.wf()
                    && s.router.node() == node_id && s.router.neighbor_ids() == neighbors@
                    && s.router.session() == 0,
                Err(e) => neighbors@.contains(node_id) && e@ == own_id_message() || !neighbors@.contains(
                    node_id,
                ) && (neighbors@.len() == 0 || neighbors@.len() > 2) && e@ == neighbor_count_text(
                    neighbors@.len(),
                ),
            },
    {
        match Self::validate_options(neighbors, node_id) {
            Ok(()) => Ok(Service { router: Router::new(node_id, neighbors) }),
            Err(e) => Err(e),
        }
    }
}

} // verus!
