//! Identifiers of sessions, senders, messages and fragments.
use vstd::prelude::*;

verus! {

/// A session number, allocated by the originating node.
#[derive(Clone, Copy, Debug, PartialEq, Eq, Hash, Structural)]
pub struct SessionID(pub u64);

/// The node that originated a session.
#[derive(Clone, Copy, Debug, PartialEq, Eq, Hash, Structural)]
pub struct SenderID(pub u8);

/// A message is identified by its session and its sender.
#[derive(Clone, Copy, Debug, PartialEq, Eq, Hash, Structural)]
pub struct MessageID(pub SessionID, pub SenderID);

/// Zero-based index of a fragment within its session.
#[derive(Clone, Copy, Debug, PartialEq, Eq, Hash, Structural)]
pub struct FragmentID(pub u64);

/// One fragment packet: session, sender and fragment index.
#[derive(Clone, Copy, Debug, PartialEq, Eq, Hash, Structural)]
pub struct PacketID(pub SessionID, pub SenderID, pub FragmentID);

/// The fragments of one session from one sender.
#[derive(Clone, Copy, Debug, PartialEq, Eq, Hash, Structural)]
pub struct PacketID2(pub SessionID, pub SenderID);

/// The single integer that keys a (session, sender) pair in the stores.
pub open spec fn session_key(session: u64, sender: u8) -> u128 {
    (session * 256 + sender) as u128
}

/// Computes `session_key`.
pub fn session_key_of(session: u64, sender: u8) -> (r: u128)
    ensures
        r == session_key(session, sender),
{
    (session as u128) * 256 + (sender as u128)
}

/// Distinct (session, sender) pairs have distinct keys.
pub proof fn lemma_session_key_injective(s1: u64, a1: u8, s2: u64, a2: u8)
    ensures
        session_key(s1, a1) == session_key(s2, a2) <==> (s1 == s2 && a1 == a2),
{
    assert(s1 * 256 + a1 < 0x1_0000_0000_0000_0000_00) by (nonlinear_arith)
        requires
            0 <= s1 < 0x1_0000_0000_0000_0000,
            0 <= a1 < 256,
    ;
    assert(s2 * 256 + a2 < 0x1_0000_0000_0000_0000_00) by (nonlinear_arith)
        requires
            0 <= s2 < 0x1_0000_0000_0000_0000,
            0 <= a2 < 256,
    ;
    if session_key(s1, a1) == session_key(s2, a2) {
        assert(s1 == s2 && a1 == a2) by (nonlinear_arith)
            requires
                s1 * 256 + a1 == s2 * 256 + a2,
                0 <= a1 < 256,
                0 <= a2 < 256,
                0 <= s1,
                0 <= s2,
        ;
    }
}

impl MessageID {
    /// The key of this message in the stores.
    pub open spec fn key(self) -> u128 {
        session_key(self.0.0, self.1.0)
    }
}

} // verus!
