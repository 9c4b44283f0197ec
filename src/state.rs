//! Configuration shared read-only by every request.
use vstd::prelude::*;

use crate::routes::RouteEntry;
use crate::shell::{HeaderFormat, ShellType};

verus! {

/// The route table, the shell and the two formats, fixed at startup.
pub struct AppState {
    /// The registered routes, in order of registration; for one method and
    /// path the last registration wins.
    pub commands: Vec<RouteEntry>,
    pub shell: ShellType,
    pub header_format: HeaderFormat,
    pub query_format: HeaderFormat,
}

} // verus!
