//! Core of a peer-to-peer file transfer tool: key and SSID derivation from a
//! shared passphrase, the version and mode handshake, the framed encrypted
//! file-streaming protocol, and session state teardown.
//!
//! The surrounding application owns all sockets, files and OS commands; this
//! crate holds every decision and every byte-level encoding of the protocol.

use vstd::prelude::*;

pub mod codec;
pub mod crypto;
pub mod error;
pub mod handshake;
pub mod network;
pub mod paths;
pub mod wire;
pub mod text;

verus! {

use vstd::string::*;

/// Protocol major version spoken by this implementation.
pub const MAJOR_VERSION: u64 = 9;

/// Plaintext bytes carried by one encrypted frame (the last frame of a file
/// may be shorter).
pub const CHUNKSIZE: usize = 1000000;

/// Oldest peer major version this implementation can interoperate with.
pub const MIN_COMPATIBLE_VERSION: u64 = 7;

/// The address the hotspot host listens on: every interface, the session's
/// fixed port.
pub fn listen_address() -> (r: String)
    ensures
        r@ == "0.0.0.0:3290"@,
{
    String::from_str("0.0.0.0:3290")
}

/// The address the connector dials: the gateway, on the session's fixed
/// port.
pub fn peer_address(gateway: &str) -> (r: String)
    ensures
        r@ == gateway@ + ":3290"@,
{
    let mut r = String::from_str(gateway);
    r.append(":3290");
    r
}

/// Whether a peer that speaks `peer_version` can take part in a transfer
/// with this implementation.
pub fn is_compatible(peer_version: u64) -> (r: bool)
    ensures
        r == (peer_version >= MIN_COMPATIBLE_VERSION),
{
    peer_version >= MIN_COMPATIBLE_VERSION
}

/// Capabilities the user interface offers the transfer engine. The
/// application implements this; the engine only calls it.
pub trait UI: Clone + Send + 'static {
    fn output(&self, msg: &str);

    fn show_progress_bar(&self);

    fn update_progress_bar(&self, percent: u8);

    fn enable_ui(&self);

    fn show_pin(&self, pin: &str);
}

/// A file path as the engine sees it: the list of its components, with no
/// separators and no root. The application converts between this and the
/// platform's path type.
pub struct FilePath {
    /// Path components from outermost directory to file name, each a
    /// non-empty byte string without separator bytes.
    pub components: Vec<Vec<u8>>,
}

/// What this session does: send a list of files, or receive into a directory.
pub enum Mode {
    Send(Vec<FilePath>),
    Receive(FilePath),
}

/// The platform of the other endpoint, as learned out of band.
#[derive(Clone, Copy, PartialEq, Eq, Structural)]
pub enum Peer {
    Android,
    IOS,
    Linux,
    MacOS,
    Windows,
}

/// Parses a platform name. Returns `None` for a name that is not one of the
/// five known platforms.
pub fn peer_from_str(peer: &str) -> (r: Option<Peer>)
    ensures
        peer@ == "android"@ ==> r == Some(Peer::Android),
        peer@ == "ios"@ ==> r == Some(Peer::IOS),
        peer@ == "linux"@ ==> r == Some(Peer::Linux),
        peer@ == "mac"@ ==> r == Some(Peer::MacOS),
        peer@ == "windows"@ ==> r == Some(Peer::Windows),
        r is None ==> peer@ != "android"@ && peer@ != "ios"@ && peer@ != "linux"@
            && peer@ != "mac"@ && peer@ != "windows"@,
{
    proof {
        reveal_strlit("android");
        reveal_strlit("ios");
        reveal_strlit("linux");
        reveal_strlit("mac");
        reveal_strlit("windows");
        assert("android"@.len() == 7);
        assert("ios"@.len() == 3);
        assert("linux"@.len() == 5);
        assert("mac"@.len() == 3);
        assert("windows"@.len() == 7);
        assert("ios"@[0] == 'i' && "mac"@[0] == 'm');
        assert("android"@[0] == 'a' && "windows"@[0] == 'w');
        assert("android"@ != "ios"@ && "android"@ != "linux"@ && "android"@ != "mac"@
            && "android"@ != "windows"@);
        assert("ios"@ != "linux"@ && "ios"@ != "mac"@ && "ios"@ != "windows"@);
        assert("linux"@ != "mac"@ && "linux"@ != "windows"@);
        assert("mac"@ != "windows"@);
    }
    if text::str_eq(peer, "android") {
        Some(Peer::Android)
    } else if text::str_eq(peer, "ios") {
        Some(Peer::IOS)
    } else if text::str_eq(peer, "linux") {
        Some(Peer::Linux)
    } else if text::str_eq(peer, "mac") {
        Some(Peer::MacOS)
    } else if text::str_eq(peer, "windows") {
        Some(Peer::Windows)
    } else {
        None
    }
}

/// Turns the user's chosen mode into the session's `Mode`: `"send"` needs a
/// non-empty file list, `"receive"` needs a destination directory. Anything
/// else is a configuration error, reported before any network work starts.
pub fn parse_mode(mode: &str, file_list: Option<Vec<FilePath>>, receive_dir: Option<FilePath>)
    -> (r: Result<Mode, error::FCError>)
    ensures
        match r {
            Ok(m) => ({
                &&& mode@ == "send"@
                &&& file_list is Some
                &&& file_list.unwrap()@.len() >= 1
                &&& m matches Mode::Send(got)
                &&& Some(got) == file_list
            }) || ({
                &&& mode@ == "receive"@
                &&& m matches Mode::Receive(d)
                &&& Some(d) == receive_dir
            }),
            Err(_) => !(mode@ == "send"@ && file_list is Some && file_list.unwrap()@.len() >= 1)
                && !(mode@ == "receive"@ && receive_dir is Some),
        },
{
    proof {
        reveal_strlit("send");
        reveal_strlit("receive");
        assert("send"@.len() == 4);
        assert("receive"@.len() == 7);
        assert("send"@ != "receive"@);
    }
    if text::str_eq(mode, "send") {
        match file_list {
            Some(files) => {
                if files.len() == 0 {
                    Err(error::FCError::new("Send mode selected but no files present."))
                } else {
                    Ok(Mode::Send(files))
                }
            },
            None => Err(error::FCError::new("Send mode selected but no files present.")),
        }
    } else if text::str_eq(mode, "receive") {
        match receive_dir {
            Some(dir) => Ok(Mode::Receive(dir)),
            None => Err(error::FCError::new("Receive mode selected but no folder present.")),
        }
    } else {
        Err(error::FCError::new("Bad mode"))
    }
}

/// Handle for a hotspot hosted by the Windows network stack. The Linux build
/// carries no data for it.
pub struct WindowsHotspot {
    _inner: (),
}

/// The WiFi endpoint after hotspot setup. The variant decides the role in
/// every later protocol step: clients connect and write first, hosts accept
/// and read first.
pub enum PeerResource {
    /// We joined the peer's hotspot; the peer is reachable at this gateway
    /// address.
    WifiClient(String),
    /// We host the hotspot through the Windows network stack.
    WindowsHotspot(WindowsHotspot),
    /// We host the hotspot through the Linux network stack.
    LinuxHotspot,
}

/// A WiFi interface: its name, and a base-10 string of the u128 form of its
/// GUID (used only on Windows, empty elsewhere).
pub struct WiFiInterface(pub String, pub String);

/// True for the session state after teardown: nothing left to stop.
pub open spec fn torn_down(t: Transfer) -> bool {
    t.hotspot is None && t.ssid is None
}

/// The session state that teardown leaves behind, whatever it started from.
pub open spec fn after_teardown(t: Transfer) -> Transfer {
    Transfer { hotspot: None, ssid: None }
}

/// Shared state of the one active transfer: the hotspot resource and the
/// SSID it was created under, each present only between a successful
/// handshake and teardown.
pub struct Transfer {
    pub hotspot: Option<PeerResource>,
    pub ssid: Option<String>,
}

impl Transfer {
    /// Fresh state: no hotspot, no SSID.
    pub fn new() -> (t: Transfer)
        ensures
            torn_down(t),
    {
        Transfer { hotspot: None, ssid: None }
    }

    /// Records the SSID chosen for this session.
    pub fn set_ssid(&mut self, ssid: String)
        ensures
            final(self).ssid == Some(ssid),
            final(self).hotspot == old(self).hotspot,
    {
        self.ssid = Some(ssid);
    }

    /// Records the hotspot resource once the handshake has succeeded.
    pub fn set_hotspot(&mut self, hotspot: PeerResource)
        ensures
            final(self).hotspot == Some(hotspot),
            final(self).ssid == old(self).ssid,
    {
        self.hotspot = Some(hotspot);
    }

    /// Clears the shared state and hands back what teardown must stop.
    ///
    /// Callable from any state: the state is empty afterwards whether or not
    /// it was before, so tearing down twice is safe and the second call
    /// finds nothing left to stop.
    pub fn teardown(&mut self) -> (r: (Option<PeerResource>, Option<String>))
        ensures
            *final(self) == after_teardown(*old(self)),
            torn_down(*final(self)),
            r.0 == old(self).hotspot,
            r.1 == old(self).ssid,
    {
        let hotspot = self.hotspot.take();
        let ssid = self.ssid.take();
        (hotspot, ssid)
    }
}

/// Teardown is idempotent: tearing down twice leaves the shared state empty
/// both times, and the second pass finds nothing left to stop.
pub proof fn lemma_teardown_idempotent(t: Transfer)
    ensures
        after_teardown(after_teardown(t)) == after_teardown(t),
        torn_down(after_teardown(t)),
        after_teardown(t).hotspot is None,
        after_teardown(t).ssid is None,
{
}

} // verus!
