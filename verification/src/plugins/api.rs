//! Plugin API definitions shared by the engine and its plugins.

use vstd::prelude::*;

verus! {

/// Version of the plugin API, `MAJOR.MINOR.PATCH`.
///
/// Plugins must be built against a compatible version: the major version
/// must match, and (under major version 0) so must the minor version.
pub const PLUGIN_API_VERSION: &'static str = "0.1.0";

} // verus!
