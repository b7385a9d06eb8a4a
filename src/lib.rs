//! Discovery of the port on which a backend sidecar listens: a development
//! override read from the environment, or the `PORT=<n>` line that the
//! sidecar announces on its standard output.
use vstd::prelude::*;

pub mod port_state;
pub mod port_text;
pub mod scanner;
pub mod startup;

pub use port_state::BackendPort;
pub use port_text::{parse_announcement, parse_port, trim_white_space};
pub use scanner::{scan, settle, ScanState, SidecarEvent};
pub use startup::{resolve_override, PORT_OVERRIDE_VAR, SIDECAR_NAME};

verus! {

} // verus!
