//! Connection control: the flows against charon, and what is shown of their state.

pub mod bridge;
pub mod flow;
pub mod status;

pub use flow::{
    check, connect, disconnect, other_version, peer_ids, preflight, suggests_auth_failure,
    suggests_wrong_ike_version, Connect, ConnectOutcome, ControlError, LogLine, Task, Transport,
};
pub use status::{ChildSa, IkeSa};
