//! The WiFi side of a session, as decisions and data: who hosts, the exact
//! nmcli invocations that create, join and delete the hotspot connection,
//! and the parsing of command output. Running the commands is the
//! application's job; everything they contain is decided here.

use vstd::prelude::*;

verus! {

use vstd::string::*;
use crate::{Mode, Peer, WiFiInterface};
use crate::text::spec_contains;

/// Whether this endpoint hosts the hotspot, given the peer's platform and
/// our mode. Apple and Android peers always host their own network; against
/// Windows we host; between two Linux machines the receiver hosts.
pub fn is_hosting(peer: &Peer, mode: &Mode) -> (r: bool)
    ensures
        r == match *peer {
            Peer::Android | Peer::IOS | Peer::MacOS => true,
            Peer::Windows => false,
            Peer::Linux => mode matches Mode::Receive(_),
        },
{
    match peer {
        Peer::Android | Peer::IOS | Peer::MacOS => true,
        Peer::Windows => false,
        Peer::Linux => match mode {
            Mode::Send(_) => false,
            Mode::Receive(_) => true,
        },
    }
}

/// Builds one command argument list from string slices.
fn cmd(args: &[&str]) -> (r: Vec<String>)
    ensures
        r.deep_view() == args.deep_view(),
{
    let mut r: Vec<String> = Vec::new();
    let mut i: usize = 0;
    while i < args.len()
        invariant
            i <= args@.len(),
            r@.len() == i,
            forall|k: int| 0 <= k < i ==> (#[trigger] r@[k])@ == args@[k]@,
        decreases args@.len() - i,
    {
        r.push(String::from_str(args[i]));
        i += 1;
    }
    proof {
        assert forall|k: int| 0 <= k < args@.len() implies r.deep_view()[k]
            == args.deep_view()[k] by {
            assert(r@[k]@ == args@[k]@);
        }
        assert(r.deep_view() =~= args.deep_view());
    }
    r
}

/// The nmcli invocations that create and bring up a WPA2 access point named
/// `ssid` on `interface`, in order.
pub open spec fn spec_start_hotspot_commands(
    ssid: Seq<char>,
    password: Seq<char>,
    interface: Seq<char>,
) -> Seq<Seq<Seq<char>>> {
    seq![
        seq![
            "con"@, "add"@, "type"@, "wifi"@, "ifname"@, interface, "con-name"@, ssid,
            "autoconnect"@, "yes"@, "ssid"@, ssid,
        ],
        seq!["con"@, "modify"@, ssid, "802-11-wireless.mode"@, "ap"@, "ipv4.method"@, "shared"@],
        seq!["con"@, "modify"@, ssid, "wifi-sec.key-mgmt"@, "wpa-psk"@],
        seq!["con"@, "modify"@, ssid, "wifi-sec.pmf"@, "disable"@],
        seq!["con"@, "modify"@, ssid, "wifi-sec.pairwise"@, "ccmp"@],
        seq!["con"@, "modify"@, ssid, "wifi-sec.group"@, "ccmp"@],
        seq!["con"@, "modify"@, ssid, "wifi-sec.proto"@, "rsn"@],
        seq!["con"@, "modify"@, ssid, "wifi-sec.psk"@, password],
        seq!["con"@, "up"@, ssid],
    ]
}

/// The commands that start a hotspot: a WPA2 (not WPA3, so M1 Macs can
/// join), AES-only access point with a shared IPv4 subnet. The caller runs
/// them with nmcli in order and fails on the first unsuccessful one.
pub fn start_hotspot(ssid: &str, password: &str, interface: &str) -> (r: Vec<Vec<String>>)
    ensures
        r.deep_view() == spec_start_hotspot_commands(ssid@, password@, interface@),
{
    let mut r: Vec<Vec<String>> = Vec::new();
    r.push(
        cmd(
            &[
                "con",
                "add",
                "type",
                "wifi",
                "ifname",
                interface,
                "con-name",
                ssid,
                "autoconnect",
                "yes",
                "ssid",
                ssid,
            ],
        ),
    );
    r.push(cmd(&["con", "modify", ssid, "802-11-wireless.mode", "ap", "ipv4.method", "shared"]));
    r.push(cmd(&["con", "modify", ssid, "wifi-sec.key-mgmt", "wpa-psk"]));
    r.push(cmd(&["con", "modify", ssid, "wifi-sec.pmf", "disable"]));
    r.push(cmd(&["con", "modify", ssid, "wifi-sec.pairwise", "ccmp"]));
    r.push(cmd(&["con", "modify", ssid, "wifi-sec.group", "ccmp"]));
    r.push(cmd(&["con", "modify", ssid, "wifi-sec.proto", "rsn"]));
    r.push(cmd(&["con", "modify", ssid, "wifi-sec.psk", password]));
    r.push(cmd(&["con", "up", ssid]));
    proof {
        assert(r.deep_view() =~~= spec_start_hotspot_commands(ssid@, password@, interface@));
    }
    r
}

/// The nmcli invocations that configure joining the peer's hotspot.
pub open spec fn spec_join_hotspot_commands(
    ssid: Seq<char>,
    password: Seq<char>,
    interface: Seq<char>,
) -> Seq<Seq<Seq<char>>> {
    seq![
        seq![
            "con"@, "add"@, "type"@, "wifi"@, "ifname"@, interface, "con-name"@, ssid,
            "autoconnect"@, "yes"@, "ssid"@, ssid,
        ],
        seq!["con"@, "modify"@, ssid, "wifi-sec.key-mgmt"@, "wpa-psk"@],
        seq!["con"@, "modify"@, ssid, "wifi-sec.psk"@, password],
    ]
}

/// The commands that configure the connection used to join the peer's
/// hotspot. The caller runs them in order, then repeats
/// `activate_connection_command` until it succeeds (the network may not be
/// up yet).
pub fn join_hotspot(ssid: &str, password: &str, interface: &str) -> (r: Vec<Vec<String>>)
    ensures
        r.deep_view() == spec_join_hotspot_commands(ssid@, password@, interface@),
{
    let mut r: Vec<Vec<String>> = Vec::new();
    r.push(
        cmd(
            &[
                "con",
                "add",
                "type",
                "wifi",
                "ifname",
                interface,
                "con-name",
                ssid,
                "autoconnect",
                "yes",
                "ssid",
                ssid,
            ],
        ),
    );
    r.push(cmd(&["con", "modify", ssid, "wifi-sec.key-mgmt", "wpa-psk"]));
    r.push(cmd(&["con", "modify", ssid, "wifi-sec.psk", password]));
    proof {
        assert(r.deep_view() =~~= spec_join_hotspot_commands(ssid@, password@, interface@));
    }
    r
}

/// The nmcli invocation that brings the configured connection up.
pub fn activate_connection_command(ssid: &str) -> (r: Vec<String>)
    ensures
        r.deep_view() == seq!["con"@, "up"@, ssid@],
{
    let r = cmd(&["con", "up", ssid]);
    proof {
        assert(r.deep_view() =~~= seq!["con"@, "up"@, ssid@]);
    }
    r
}

/// What teardown should do about the hotspot connection.
pub enum StopPlan {
    /// No SSID was recorded: nothing to stop.
    Nothing,
    /// The SSID is not among the known connections; the message says so.
    NotKnown(String),
    /// Delete the connection by running this nmcli invocation.
    Delete(Vec<String>),
}

/// Decides how to stop the hotspot, given the recorded SSID and the output
/// of `nmcli connection show`: delete the connection when it is listed,
/// otherwise report that the SSID was not a known network.
pub fn stop_hotspot(ssid: Option<&str>, connections: &[u8]) -> (r: StopPlan)
    ensures
        match r {
            StopPlan::Nothing => ssid is None,
            StopPlan::NotKnown(msg) => ssid matches Some(s) && !spec_contains(
                connections@,
                s.spec_bytes(),
            ) && msg@ == "SSID "@ + s@ + " was not a known network"@,
            StopPlan::Delete(command) => ssid matches Some(s) && spec_contains(
                connections@,
                s.spec_bytes(),
            ) && command.deep_view() == seq!["connection"@, "delete"@, s@],
        },
{
    match ssid {
        None => StopPlan::Nothing,
        Some(s) => {
            if crate::text::bytes_contain(connections, s.as_bytes()) {
                let command = cmd(&["connection", "delete", s]);
                proof {
                    assert(command.deep_view() =~~= seq!["connection"@, "delete"@, s@]);
                }
                StopPlan::Delete(command)
            } else {
                let mut msg = String::from_str("SSID ");
                msg.append(s);
                msg.append(" was not a known network");
                StopPlan::NotKnown(msg)
            }
        },
    }
}

/// An ASCII whitespace byte: space, tab, line feed or carriage return.
pub open spec fn is_space(b: u8) -> bool {
    b == 32 || b == 9 || b == 10 || b == 13
}

fn is_space_byte(b: u8) -> (r: bool)
    ensures
        r == is_space(b),
{
    b == 32 || b == 9 || b == 10 || b == 13
}

/// Extracts the gateway address from the routing-table query's output:
/// the output stripped of surrounding whitespace. An empty result means no
/// gateway was found yet and the caller polls again.
pub fn find_gateway(route_output: &[u8]) -> (r: Vec<u8>)
    ensures
        exists|a: int, b: int|
            {
                &&& 0 <= a <= b <= route_output@.len()
                &&& r@ == route_output@.subrange(a, b)
                &&& (forall|j: int| 0 <= j < a ==> is_space(#[trigger] route_output@[j]))
                &&& (forall|j: int|
                    b <= j < route_output@.len() ==> is_space(#[trigger] route_output@[j]))
                &&& (a < b ==> !is_space(route_output@[a]) && !is_space(route_output@[b - 1]))
            },
        r@.len() == 0 <==> (forall|j: int|
            0 <= j < route_output@.len() ==> is_space(#[trigger] route_output@[j])),
{
    let mut a: usize = 0;
    while a < route_output.len() && is_space_byte(route_output[a])
        invariant
            a <= route_output@.len(),
            forall|j: int| 0 <= j < a ==> is_space(#[trigger] route_output@[j]),
        decreases route_output@.len() - a,
    {
        a += 1;
    }
    if a == route_output.len() {
        let r: Vec<u8> = Vec::new();
        proof {
            assert(r@ =~= route_output@.subrange(a as int, a as int));
            assert(exists|x: int, y: int|
                {
                    &&& 0 <= x <= y <= route_output@.len()
                    &&& r@ == route_output@.subrange(x, y)
                    &&& (forall|j: int| 0 <= j < x ==> is_space(#[trigger] route_output@[j]))
                    &&& (forall|j: int|
                        y <= j < route_output@.len() ==> is_space(#[trigger] route_output@[j]))
                    &&& (x < y ==> !is_space(route_output@[x]) && !is_space(
                        route_output@[y - 1],
                    ))
                });
        }
        return r;
    }
    let mut b: usize = route_output.len();
    while b > a && is_space_byte(route_output[b - 1])
        invariant
            a <= b <= route_output@.len(),
            forall|j: int| b <= j < route_output@.len() ==> is_space(#[trigger] route_output@[j]),
            !is_space(route_output@[a as int]),
        decreases b,
    {
        b -= 1;
    }
    proof {
        assert(b > a);
        assert(!is_space(route_output@[b - 1]));
    }
    let r = vstd::slice::slice_to_vec(vstd::slice::slice_subrange(route_output, a, b));
    proof {
        assert(r@ == route_output@.subrange(a as int, b as int));
        assert(exists|x: int, y: int|
            {
                &&& 0 <= x <= y <= route_output@.len()
                &&& r@ == route_output@.subrange(x, y)
                &&& (forall|j: int| 0 <= j < x ==> is_space(#[trigger] route_output@[j]))
                &&& (forall|j: int|
                    y <= j < route_output@.len() ==> is_space(#[trigger] route_output@[j]))
                &&& (x < y ==> !is_space(route_output@[x]) && !is_space(route_output@[y - 1]))
            });
        assert(r@.len() > 0);
        assert(!is_space(route_output@[a as int]));
        assert(!(forall|j: int|
            0 <= j < route_output@.len() ==> is_space(#[trigger] route_output@[j])));
    }
    r
}

/// The first position at or after `i` holding `sep`, or the end of `p`.
pub open spec fn sep_end(p: Seq<u8>, i: int, sep: u8) -> int
    decreases p.len() - i,
    when 0 <= i <= p.len()
{
    if i >= p.len() {
        i
    } else if p[i] == sep {
        i
    } else {
        sep_end(p, i + 1, sep)
    }
}

/// `sep_end` finds exactly the boundary the bytes show.
pub proof fn lemma_sep_end_char(p: Seq<u8>, i: int, k: int, sep: u8)
    requires
        0 <= i <= k <= p.len(),
        forall|j: int| i <= j < k ==> p[j] != sep,
        k < p.len() ==> p[k] == sep,
    ensures
        sep_end(p, i, sep) == k,
    decreases k - i,
{
    if i < k {
        lemma_sep_end_char(p, i + 1, k, sep);
    }
}

/// The bytes of the device type nmcli prints for a WiFi interface.
pub open spec fn wifi_bytes() -> Seq<u8> {
    seq![119u8, 105u8, 102u8, 105u8]
}

/// The interface name one line of `nmcli -t device` contributes: the first
/// `:`-separated field, when the second field is `wifi` and the name is
/// valid UTF-8; nothing otherwise.
pub open spec fn line_interface(line: Seq<u8>) -> Option<Seq<u8>> {
    let c1 = sep_end(line, 0, 58);
    if c1 == line.len() {
        None
    } else {
        let c2 = sep_end(line, c1 + 1, 58);
        let name = line.subrange(0, c1);
        let kind = line.subrange(c1 + 1, c2);
        if kind == wifi_bytes() && vstd::utf8::valid_utf8(name) {
            Some(name)
        } else {
            None
        }
    }
}

/// The interface names in the whole of `nmcli -t device`'s output, line by
/// line.
pub open spec fn spec_interfaces(output: Seq<u8>) -> Seq<Seq<u8>>
    decreases output.len(),
    via spec_interfaces_decreases
{
    if output.len() == 0 {
        Seq::empty()
    } else {
        let e = sep_end(output, 0, 10);
        let here = match line_interface(output.subrange(0, e)) {
            Some(n) => seq![n],
            None => Seq::<Seq<u8>>::empty(),
        };
        if e == output.len() {
            here
        } else {
            here + spec_interfaces(output.skip(e + 1))
        }
    }
}

#[via_fn]
proof fn spec_interfaces_decreases(output: Seq<u8>) {
    if output.len() > 0 {
        let ghost e = sep_end(output, 0, 10);
        lemma_sep_end_bounds(output, 0, 10);
    }
}

/// `sep_end` never runs past the bytes.
pub proof fn lemma_sep_end_bounds(p: Seq<u8>, i: int, sep: u8)
    requires
        0 <= i <= p.len(),
    ensures
        i <= sep_end(p, i, sep) <= p.len(),
    decreases p.len() - i,
{
    if i < p.len() && p[i] != sep {
        lemma_sep_end_bounds(p, i + 1, sep);
    }
}

/// Parses `nmcli -t device` output into the WiFi interfaces it lists: the
/// name field of every line whose type field is `wifi`. Lines without a
/// `:`, of another type, or with a name that is not UTF-8 contribute
/// nothing. The GUID field is empty on Linux.
#[verifier::loop_isolation(false)]
#[verifier::rlimit(100)]
#[verifier::spinoff_prover]
pub fn get_wifi_interfaces(output: &[u8]) -> (r: Vec<WiFiInterface>)
    ensures
        r@.len() == spec_interfaces(output@).len(),
        forall|i: int|
            0 <= i < r@.len() ==> (#[trigger] r@[i]).0@ == vstd::utf8::decode_utf8(
                spec_interfaces(output@)[i],
            ) && r@[i].1@.len() == 0,
{
    let mut r: Vec<WiFiInterface> = Vec::new();
    let mut names: Ghost<Seq<Seq<u8>>> = Ghost(Seq::empty());
    let mut pos: usize = 0;
    proof {
        assert(output@.skip(0) =~= output@);
        assert(names@ + spec_interfaces(output@) =~= spec_interfaces(output@));
    }
    while pos < output.len()
        invariant
            pos <= output@.len(),
            spec_interfaces(output@) =~= names@ + spec_interfaces(output@.skip(pos as int)),
            r@.len() == names@.len(),
            forall|i: int|
                0 <= i < r@.len() ==> (#[trigger] r@[i]).0@ == vstd::utf8::decode_utf8(names@[i])
                    && r@[i].1@.len() == 0,
        decreases output@.len() - pos,
    {
        let ghost suffix = output@.skip(pos as int);
        // End of this line.
        let mut e: usize = pos;
        while e < output.len() && output[e] != 10
            invariant
                pos <= e <= output@.len(),
                forall|j: int| pos <= j < e ==> output@[j] != 10,
            decreases output@.len() - e,
        {
            e += 1;
        }
        proof {
            assert forall|j: int| 0 <= j < e - pos implies suffix[j] != 10 by {
                assert(suffix[j] == output@[pos + j]);
            }
            if (e as int) - (pos as int) < suffix.len() {
                assert(suffix[e - pos] == output@[e as int]);
            }
            lemma_sep_end_char(suffix, 0, e - pos, 10);
            assert(sep_end(suffix, 0, 10) == e - pos);
        }
        let ghost line = suffix.subrange(0, e - pos);
        proof {
            assert(line =~= output@.subrange(pos as int, e as int));
        }
        // First field: the interface name.
        let mut c: usize = pos;
        while c < e && output[c] != 58
            invariant
                pos <= c <= e,
                forall|j: int| pos <= j < c ==> output@[j] != 58,
            decreases e - c,
        {
            c += 1;
        }
        proof {
            assert forall|j: int| 0 <= j < c - pos implies line[j] != 58 by {
                assert(line[j] == output@[pos + j]);
            }
            if (c as int) - (pos as int) < line.len() {
                assert(line[c - pos] == output@[c as int]);
            }
            lemma_sep_end_char(line, 0, c - pos, 58);
        }
        let ghost entry = line_interface(line);
        if c < e {
            // Second field: the device type.
            let mut d: usize = c + 1;
            while d < e && output[d] != 58
                invariant
                    c + 1 <= d <= e,
                    forall|j: int| c + 1 <= j < d ==> output@[j] != 58,
                decreases e - d,
            {
                d += 1;
            }
            proof {
                assert forall|j: int| c + 1 - pos <= j < d - pos implies line[j] != 58 by {
                    assert(line[j] == output@[pos + j]);
                }
                if (d as int) - (pos as int) < line.len() {
                    assert(line[d - pos] == output@[d as int]);
                }
                lemma_sep_end_char(line, c + 1 - pos, d - pos, 58);
            }
            let is_wifi = d - (c + 1) == 4 && output[c + 1] == 119 && output[c + 2] == 105
                && output[c + 3] == 102 && output[c + 4] == 105;
            proof {
                let kind = line.subrange(c + 1 - pos, d - pos);
                if is_wifi {
                    assert(kind =~= wifi_bytes());
                } else {
                    if kind == wifi_bytes() {
                        assert(kind.len() == 4);
                        assert(kind[0] == 119 && kind[1] == 105 && kind[2] == 102 && kind[3]
                            == 105);
                        assert(output@[c + 1] == kind[0] && output@[c + 2] == kind[1] && output@[c
                            + 3] == kind[2] && output@[c + 4] == kind[3]);
                        assert(false);
                    }
                }
            }
            if is_wifi {
                let name_vec = vstd::slice::slice_to_vec(
                    vstd::slice::slice_subrange(output, pos, c),
                );
                proof {
                    assert(name_vec@ =~= line.subrange(0, c - pos));
                }
                match crate::text::bytes_to_string(name_vec) {
                    Some(name) => {
                        proof {
                            assert(entry == Some(line.subrange(0, c - pos)));
                        }
                        r.push(WiFiInterface(name, String::new()));
                        proof {
                            names@ = names@.push(line.subrange(0, c - pos));
                        }
                    },
                    None => {
                        proof {
                            assert(entry is None);
                        }
                    },
                }
            } else {
                proof {
                    assert(entry is None);
                }
            }
        } else {
            proof {
                assert(sep_end(line, 0, 58) == line.len());
                assert(entry is None);
            }
        }
        // Step past the line and its newline, if any.
        let next = if e < output.len() {
            e + 1
        } else {
            e
        };
        proof {
            let here: Seq<Seq<u8>> = match entry {
                Some(n) => seq![n],
                None => Seq::<Seq<u8>>::empty(),
            };
            assert(suffix.len() > 0);
            assert(spec_interfaces(suffix) == (if e - pos == suffix.len() {
                here
            } else {
                here + spec_interfaces(suffix.skip(e - pos + 1))
            }));
            if (e as int) < output@.len() {
                assert(suffix.skip(e - pos + 1) =~= output@.skip(e + 1));
            } else {
                assert(e - pos == suffix.len());
            }
            assert(spec_interfaces(output@) =~= names@ + spec_interfaces(
                output@.skip(next as int),
            ));
        }
        pos = next;
    }
    proof {
        assert(output@.skip(pos as int).len() == 0);
        assert(spec_interfaces(output@.skip(pos as int)) =~= Seq::<Seq<u8>>::empty());
        assert(spec_interfaces(output@) =~= names@);
    }
    r
}

/// The shell pipeline that asks the routing table for the gateway of one
/// interface.
pub fn gateway_query_command(interface: &str) -> (r: String)
    ensures
        r@ == "route -n | grep "@ + interface@ + " | grep UG | awk '{print $2}'"@,
{
    let mut r = String::from_str("route -n | grep ");
    r.append(interface);
    r.append(" | grep UG | awk '{print $2}'");
    r
}

} // verus!
