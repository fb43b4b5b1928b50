//! Modules that are run as programs.
use super::common::{discover_each, entries_where, reports};
use crate::extract::ParsedModule;
use crate::types::PluginResult;
use rustc_hash::FxHashMap;
use vstd::prelude::*;

verus! {

pub const PLUGIN_NAME: &'static str = "script";

/// Whether the module has a main guard, or is called `__main__.py`.
pub open spec fn is_script(m: ParsedModule) -> bool {
    m.is_script_entry || m.path@.is_named("__main__.py"@)
}

/// Whether the module is run as a program.
pub fn is_script_module(module: &ParsedModule) -> (r: bool)
    ensures
        r == is_script(*module),
{
    module.is_script_entry || module.path.is_named("__main__.py")
}

/// The modules that are run as programs.
pub fn discover(parsed: &FxHashMap<u32, ParsedModule>) -> (r: PluginResult)
    ensures
        reports(r, PLUGIN_NAME@, entries_where(parsed@, |m: ParsedModule| is_script(m))),
{
    discover_each(PLUGIN_NAME, parsed, is_script_module, Ghost(|m: ParsedModule| is_script(m)))
}

} // verus!
