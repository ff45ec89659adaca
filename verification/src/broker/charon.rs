//! The strongSwan daemon that the Windows broker supervises: whose daemon holds the vici port, and
//! whether to start or stop it.
//!
//! Another vendor's client may run the same daemon. A listener on the port is only taken for ours
//! when its process runs the binary that we shipped; anything else is refused, neither driven nor
//! killed.

use crate::text::{decimal, format_u64};
use vstd::prelude::*;

verus! {

/// The vici socket of our charon.
pub const VICI_ADDR: &'static str = "127.0.0.1:45023";

/// The port in [`VICI_ADDR`].
pub const VICI_PORT: u16 = 45023;

/// What is known of the process that holds the port.
#[derive(Debug)]
pub enum Image {
    /// It runs our binary.
    Ours,
    /// It runs the binary at this path.
    Foreign(String),
    /// Its binary could not be read.
    Unreadable,
}

/// What is said of a process that does not run our binary.
pub open spec fn foreign_text(path: Seq<char>, pid: nat) -> Seq<char> {
    "vici port "@ + VICI_ADDR@ + " is held by "@ + path + " (pid "@ + decimal(pid)
        + "), which is not our charon-svc — refusing to use it"@
}

/// What is said of a process whose binary could not be read.
pub open spec fn unreadable_text(pid: nat) -> Seq<char> {
    "vici port "@ + VICI_ADDR@ + " is held by pid "@ + decimal(pid)
        + ", whose image could not be read — refusing to use a daemon we cannot identify"@
}

/// Whether the daemon on the vici port is ours: it is, nothing listens, or someone else holds it.
/// What cannot be proved to be ours counts as someone else's.
pub fn is_ours(pid: Option<u32>, image: &Image) -> (r: Result<bool, String>)
    ensures
        match pid {
            None => r == Ok::<bool, String>(false),
            Some(p) => match *image {
                Image::Ours => r == Ok::<bool, String>(true),
                Image::Foreign(path) => r matches Err(e) && e@ == foreign_text(path@, p as nat),
                Image::Unreadable => r matches Err(e) && e@ == unreadable_text(p as nat),
            },
        },
{
    let p: u32 = match pid {
        Some(p) => p,
        None => {
            return Ok(false);
        },
    };
    match image {
        Image::Ours => Ok(true),
        Image::Foreign(path) => {
            let mut s = "vici port ".to_owned();
            s.append(VICI_ADDR);
            s.append(" is held by ");
            s.append(path.as_str());
            s.append(" (pid ");
            s.append(format_u64(p as u64).as_str());
            s.append("), which is not our charon-svc — refusing to use it");
            Err(s)
        },
        Image::Unreadable => {
            let mut s = "vici port ".to_owned();
            s.append(VICI_ADDR);
            s.append(" is held by pid ");
            s.append(format_u64(p as u64).as_str());
            s.append(
                ", whose image could not be read — refusing to use a daemon we cannot identify",
            );
            Err(s)
        },
    }
}

/// Whether to launch charon: not when ours is up already, and only with its configuration, without
/// which it would come up on another port.
pub fn start(ours: bool, has_conf: bool, conf: &str) -> (r: Result<bool, String>)
    ensures
        match r {
            Ok(launch) => launch == !ours && (ours || has_conf),
            Err(e) => !ours && !has_conf && e@ == "strongswan.conf not found at "@ + conf@
                + " — charon would come up on its default vici port instead of "@ + VICI_ADDR@,
        },
{
    if ours {
        return Ok(false);
    }
    if !has_conf {
        let mut s = "strongswan.conf not found at ".to_owned();
        s.append(conf);
        s.append(" — charon would come up on its default vici port instead of ");
        s.append(VICI_ADDR);
        return Err(s);
    }
    Ok(true)
}

/// The process to kill when charon is to stop: the one on the port, and only when it is ours.
pub fn stop(pid: Option<u32>, image: &Image) -> (r: Option<u32>)
    ensures
        r == (if *image is Ours {
            pid
        } else {
            None
        }),
{
    match is_ours(pid, image) {
        Ok(yes) => if yes {
            pid
        } else {
            None
        },
        Err(_) => None,
    }
}

/// One listener in the system's table: its local port in network byte order in the low half, and
/// its process.
#[derive(Debug, Clone, Copy, PartialEq, Eq, Structural)]
pub struct Listener {
    pub local_port: u32,
    pub pid: u32,
}

/// The port of a listener.
pub open spec fn port_of(local_port: u32) -> int {
    (local_port % 256) * 256 + local_port as int / 256 % 256
}

/// The process of the first listener on a port, from `i` on.
pub open spec fn owner_from(rows: Seq<Listener>, port: int, i: int) -> Option<u32>
    decreases rows.len() - i,
{
    if i < 0 || i >= rows.len() {
        None
    } else if port_of(rows[i].local_port) == port {
        Some(rows[i].pid)
    } else {
        owner_from(rows, port, i + 1)
    }
}

/// The process that listens on a port.
pub fn owner_pid(rows: &Vec<Listener>, port: u16) -> (r: Option<u32>)
    ensures
        r == owner_from(rows@, port as int, 0),
{
    let mut i: usize = 0;
    while i < rows.len()
        invariant
            i <= rows@.len(),
            owner_from(rows@, port as int, 0) == owner_from(rows@, port as int, i as int),
        decreases rows@.len() - i,
    {
        let p: u32 = rows[i].local_port;
        if (p % 256) * 256 + p / 256 % 256 == port as u32 {
            return Some(rows[i].pid);
        }
        i = i + 1;
    }
    None
}

/// The process on a port is that of the first listener there; there is none exactly when nobody
/// listens there. A port stands in the table with its two bytes swapped.
pub proof fn law_first_listener_owns_the_port(rows: Seq<Listener>, port: u16)
    ensures
        match owner_from(rows, port as int, 0) {
            Some(pid) => exists|i: int|
                0 <= i < rows.len() && #[trigger] listens(rows[i], port) && rows[i].pid == pid
                    && forall|k: int| 0 <= k < i ==> !listens(#[trigger] rows[k], port),
            None => forall|k: int| 0 <= k < rows.len() ==> !listens(#[trigger] rows[k], port),
        },
{
    lemma_owner(rows, port, 0);
}

/// Whether a listener is on the port: the high byte of the port is the low byte of what the table
/// holds, and the low byte the one above it.
pub open spec fn listens(row: Listener, port: u16) -> bool {
    row.local_port % 256 == port / 256 && row.local_port / 256 % 256 == port % 256
}

proof fn lemma_owner(rows: Seq<Listener>, port: u16, i: int)
    requires
        0 <= i <= rows.len(),
        forall|k: int| 0 <= k < i ==> !listens(#[trigger] rows[k], port),
    ensures
        match owner_from(rows, port as int, i) {
            Some(pid) => exists|j: int|
                0 <= j < rows.len() && #[trigger] listens(rows[j], port) && rows[j].pid == pid
                    && forall|k: int| 0 <= k < j ==> !listens(#[trigger] rows[k], port),
            None => forall|k: int| 0 <= k < rows.len() ==> !listens(#[trigger] rows[k], port),
        },
    decreases rows.len() - i,
{
    if i < rows.len() {
        let p = rows[i].local_port as int;
        assert(port_of(rows[i].local_port) == port as int <==> listens(rows[i], port)) by {
            let high = p % 256;
            let low = p / 256 % 256;
            assert(0 <= low < 256);
            assert((high * 256 + low) / 256 == high);
            assert((high * 256 + low) % 256 == low);
        }
        if !listens(rows[i], port) {
            lemma_owner(rows, port, i + 1);
        }
    }
}

/// Whoever holds the port is named with its process, and where its binary is known, with that.
pub proof fn law_refusal_names_the_holder(path: Seq<char>, pid: nat)
    ensures
        foreign_text(path, pid) == "vici port "@ + "127.0.0.1:45023"@ + " is held by "@ + path
            + " (pid "@ + decimal(pid) + "), which is not our charon-svc — refusing to use it"@,
        unreadable_text(pid) == "vici port "@ + "127.0.0.1:45023"@ + " is held by pid "@ + decimal(
            pid,
        ) + ", whose image could not be read — refusing to use a daemon we cannot identify"@,
{
}

} // verus!
