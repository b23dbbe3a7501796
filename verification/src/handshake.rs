//! The version and mode handshake. All words are big-endian u64 on the
//! wire; the connector writes first and the host reads first on each leg,
//! so the two ends never block on each other. These functions decide every
//! word each side writes and rule on every word it reads; the caller only
//! moves the words over the socket, connector writing before reading and
//! host reading before writing.

use vstd::prelude::*;

verus! {

use crate::{MAJOR_VERSION, MIN_COMPATIBLE_VERSION, Mode, PeerResource};
use crate::error::{FCError, version_error, version_error_message, mode_error, mode_error_message};

/// Which half of each handshake leg this endpoint performs.
#[derive(Clone, Copy, PartialEq, Eq, Structural, Debug)]
pub enum Role {
    /// Joined the peer's hotspot: connects, and writes first.
    Connector,
    /// Hosts the hotspot: accepts, and reads first.
    Host,
}

/// The role a peer resource dictates.
pub open spec fn spec_role(pr: PeerResource) -> Role {
    match pr {
        PeerResource::WifiClient(_) => Role::Connector,
        PeerResource::WindowsHotspot(_) => Role::Host,
        PeerResource::LinuxHotspot => Role::Host,
    }
}

/// Derives the protocol role from the peer resource.
pub fn role_of(pr: &PeerResource) -> (r: Role)
    ensures
        r == spec_role(*pr),
{
    match pr {
        PeerResource::WifiClient(_) => Role::Connector,
        PeerResource::WindowsHotspot(_) => Role::Host,
        PeerResource::LinuxHotspot => Role::Host,
    }
}

/// The wire word for a yes/no ruling.
pub open spec fn verdict_word(ok: bool) -> u64 {
    if ok {
        1
    } else {
        0
    }
}

/// Whether a peer at `v` can interoperate with this implementation.
pub open spec fn spec_compatible(v: u64) -> bool {
    v >= MIN_COMPATIBLE_VERSION
}

/// The words one side writes during the version leg when its version is
/// `ours` and the peer's is `theirs`: its own version, then — only if it is
/// the arbiter, the side with the strictly higher version — its verdict.
pub open spec fn version_writes(ours: u64, theirs: u64) -> Seq<u64> {
    seq![ours] + if theirs < ours {
        seq![verdict_word(spec_compatible(theirs))]
    } else {
        Seq::empty()
    }
}

/// The words that same side reads, assuming the peer follows the protocol:
/// the peer's version, then — only if the peer is the arbiter — the peer's
/// verdict.
pub open spec fn version_reads(ours: u64, theirs: u64) -> Seq<u64> {
    seq![theirs] + if theirs > ours {
        seq![verdict_word(spec_compatible(ours))]
    } else {
        Seq::empty()
    }
}

/// Whether the version leg lets the session proceed.
pub open spec fn version_outcome_ok(ours: u64, theirs: u64) -> bool {
    if theirs < ours {
        spec_compatible(theirs)
    } else if theirs > ours {
        spec_compatible(ours)
    } else {
        true
    }
}

/// Equal versions: neither side writes a verdict word, each side exchanges
/// exactly one word (its version), and the session proceeds to the mode
/// leg.
pub proof fn lemma_version_equal_no_verdict(v: u64)
    ensures
        version_writes(v, v) == seq![v],
        version_reads(v, v) == seq![v],
        version_outcome_ok(v, v),
{
    assert(version_writes(v, v) =~= seq![v]);
    assert(version_reads(v, v) =~= seq![v]);
}

/// Unequal versions: the side holding the higher version writes the
/// verdict and the other reads it; every word one side writes the other
/// reads, in order, and both ends reach the same outcome.
pub proof fn lemma_version_arbiter(va: u64, vb: u64)
    requires
        va > vb,
    ensures
        version_writes(va, vb) == seq![va, verdict_word(spec_compatible(vb))],
        version_writes(vb, va) == seq![vb],
        version_writes(va, vb) == version_reads(vb, va),
        version_writes(vb, va) == version_reads(va, vb),
        version_outcome_ok(va, vb) == spec_compatible(vb),
        version_outcome_ok(vb, va) == spec_compatible(vb),
{
    assert(version_writes(va, vb) =~= seq![va, verdict_word(spec_compatible(vb))]);
    assert(version_writes(vb, va) =~= seq![vb]);
    assert(version_reads(vb, va) =~= seq![va, verdict_word(spec_compatible(vb))]);
    assert(version_reads(va, vb) =~= seq![vb]);
}

/// The version leg, decided in one piece.
#[derive(Debug)]
pub struct VersionExchange {
    /// The words this side writes, in order. The connector writes the
    /// first before reading; the host writes it after its first read; the
    /// verdict, when present, is written after both reads.
    pub outgoing: Vec<u64>,
    /// How many incoming words the leg consumed.
    pub consumed: usize,
    /// The version the peer reported.
    pub peer_version: u64,
    /// Whether the versions can work together; the error carries the
    /// user-facing message.
    pub outcome: Result<(), FCError>,
}

/// Rules on the version leg given the words read from the peer, in order.
/// The role does not change any word's value, only the order in which the
/// caller interleaves writing and reading on the socket. The outer error is
/// a peer that stopped short of the words the protocol owes us.
pub fn confirm_version(role: Role, incoming: &Vec<u64>) -> (r: Result<VersionExchange, FCError>)
    ensures
        match r {
            Err(_) => incoming@.len() == 0 || (incoming@[0] > MAJOR_VERSION && incoming@.len()
                == 1),
            Ok(v) => {
                &&& incoming@.len() >= 1
                &&& v.peer_version == incoming@[0]
                &&& v.outgoing@ == version_writes(MAJOR_VERSION, incoming@[0])
                &&& v.consumed as int == version_reads(MAJOR_VERSION, incoming@[0]).len()
                &&& (v.outcome is Ok <==> ((incoming@[0] < MAJOR_VERSION ==> spec_compatible(
                    incoming@[0],
                )) && (incoming@[0] > MAJOR_VERSION ==> incoming@[1] != 0)))
                &&& (v.outcome matches Err(e) ==> e.message@ == version_error_message(
                    incoming@[0] as int,
                ))
                &&& (incoming@[0] > MAJOR_VERSION ==> incoming@.len() >= 2)
                &&& (incoming@ == version_reads(MAJOR_VERSION, incoming@[0]) ==> (v.outcome
                    is Ok <==> version_outcome_ok(MAJOR_VERSION, incoming@[0])))
            },
        },
{
    if incoming.len() == 0 {
        return Err(FCError::new("peer closed the connection during the version exchange"));
    }
    let peer_version = incoming[0];
    let mut outgoing: Vec<u64> = Vec::new();
    outgoing.push(MAJOR_VERSION);
    if peer_version < MAJOR_VERSION {
        // We hold the higher version: we are the arbiter and write the
        // verdict.
        let compatible = crate::is_compatible(peer_version);
        outgoing.push(if compatible {
            1
        } else {
            0
        });
        proof {
            assert(outgoing@ =~= version_writes(MAJOR_VERSION, peer_version));
            assert(version_reads(MAJOR_VERSION, peer_version) =~= seq![peer_version]);
        }
        let outcome = if compatible {
            Ok(())
        } else {
            Err(version_error(peer_version))
        };
        Ok(VersionExchange { outgoing, consumed: 1, peer_version, outcome })
    } else if peer_version > MAJOR_VERSION {
        // The peer is the arbiter: read its verdict.
        if incoming.len() < 2 {
            return Err(FCError::new("peer closed the connection during the version exchange"));
        }
        let verdict = incoming[1];
        proof {
            assert(outgoing@ =~= version_writes(MAJOR_VERSION, peer_version));
            assert(version_reads(MAJOR_VERSION, peer_version) =~= seq![
                peer_version,
                verdict_word(spec_compatible(MAJOR_VERSION)),
            ]);
        }
        let outcome = if verdict == 0 {
            Err(version_error(peer_version))
        } else {
            Ok(())
        };
        Ok(VersionExchange { outgoing, consumed: 2, peer_version, outcome })
    } else {
        // Equal versions: implicitly compatible, no verdict exchanged.
        proof {
            assert(outgoing@ =~= version_writes(MAJOR_VERSION, peer_version));
            assert(version_reads(MAJOR_VERSION, peer_version) =~= seq![peer_version]);
        }
        Ok(VersionExchange { outgoing, consumed: 1, peer_version, outcome: Ok(()) })
    }
}

/// The wire code of a mode: 1 to send, 0 to receive.
pub open spec fn mode_code_of(m: Mode) -> u64 {
    match m {
        Mode::Send(_) => 1,
        Mode::Receive(_) => 0,
    }
}

/// The wire code this session announces for its mode.
pub fn mode_code(m: &Mode) -> (r: u64)
    ensures
        r == mode_code_of(*m),
{
    match m {
        Mode::Send(_) => 1,
        Mode::Receive(_) => 0,
    }
}

/// The host's ruling on the mode leg: 1 when exactly one side sends, 0
/// when both picked the same mode.
pub open spec fn mode_verdict(host_code: u64, guest_code: u64) -> u64 {
    if host_code == guest_code {
        0
    } else {
        1
    }
}

/// The host rules the modes valid exactly when the two sides chose
/// differently, and both ends then reach the same conclusion: the guest
/// reads the very verdict the host computed.
pub proof fn lemma_mode_agreement(host_code: u64, guest_code: u64)
    ensures
        mode_verdict(host_code, guest_code) == 1 <==> host_code != guest_code,
        mode_verdict(host_code, guest_code) == 0 <==> host_code == guest_code,
{
}

/// The mode leg, decided in one piece.
#[derive(Debug)]
pub struct ModeExchange {
    /// The words this side writes: the connector its mode code, the host
    /// its verdict.
    pub outgoing: Vec<u64>,
    /// How many incoming words the leg consumed: the connector reads the
    /// verdict, the host reads the guest's code.
    pub consumed: usize,
    /// Whether exactly one side sends; the error carries the user-facing
    /// message.
    pub outcome: Result<(), FCError>,
}

/// Rules on the mode leg. The connector writes its code first and then
/// reads the host's verdict; the host reads the guest's code, compares it
/// with its own, and writes the verdict. The outer error is a peer that
/// closed before the word the protocol owes us.
pub fn confirm_mode(role: Role, our_code: u64, incoming: &Vec<u64>) -> (r: Result<
    ModeExchange,
    FCError,
>)
    requires
        our_code == 0 || our_code == 1,
    ensures
        match r {
            Err(_) => incoming@.len() == 0,
            Ok(m) => {
                &&& incoming@.len() >= 1
                &&& m.consumed == 1
                &&& (role == Role::Connector ==> {
                    &&& m.outgoing@ == seq![our_code]
                    &&& (m.outcome is Ok <==> incoming@[0] == 1)
                })
                &&& (role == Role::Host ==> {
                    &&& m.outgoing@ == seq![mode_verdict(our_code, incoming@[0])]
                    &&& (m.outcome is Ok <==> incoming@[0] != our_code)
                })
                &&& (m.outcome matches Err(e) ==> e.message@ == mode_error_message(our_code
                    == 1))
            },
        },
{
    if incoming.len() == 0 {
        return Err(FCError::new("peer closed the connection during the mode exchange"));
    }
    let word = incoming[0];
    match role {
        Role::Connector => {
            let mut outgoing: Vec<u64> = Vec::new();
            outgoing.push(our_code);
            proof {
                assert(outgoing@ =~= seq![our_code]);
            }
            let outcome = if word != 1 {
                Err(mode_error(our_code == 1))
            } else {
                Ok(())
            };
            Ok(ModeExchange { outgoing, consumed: 1, outcome })
        },
        Role::Host => {
            let verdict: u64 = if word == our_code {
                0
            } else {
                1
            };
            let mut outgoing: Vec<u64> = Vec::new();
            outgoing.push(verdict);
            proof {
                assert(outgoing@ =~= seq![mode_verdict(our_code, word)]);
            }
            let outcome = if word == our_code {
                Err(mode_error(our_code == 1))
            } else {
                Ok(())
            };
            Ok(ModeExchange { outgoing, consumed: 1, outcome })
        },
    }
}

} // verus!
