//! The zsh definition of an alias, which is the Bash one.
use vstd::prelude::*;
use crate::error::AliasError;
use crate::executor::target_check_decides;
use crate::model::{AliasRecord, ManagedNameSet};
use super::bash::{bash_render_spec, names_view, preemption_spec, text_view};
use super::common::quote_posix;

verus! {

/// The zsh text of an alias and the cleanup of the managed names: the same
/// as for Bash.
pub fn render(alias: &AliasRecord, names: &ManagedNameSet) -> (r: Result<String, AliasError>)
    ensures
        exists|e: bool| text_view(r) == bash_render_spec(alias@, alias.executable, names_view(*names), e),
        !target_check_decides(alias@) ==> text_view(r) == bash_render_spec(
            alias@,
            alias.executable,
            names_view(*names),
            false,
        ),
{
    super::bash::render(alias, names)
}

/// Removes an existing alias of a name, silently.
pub fn render_preemption(name: &str) -> (s: String)
    ensures
        s@ == preemption_spec(name@),
{
    let mut s = String::from_str("\nunalias ");
    s.append(quote_posix(name).as_str());
    s.append(" 2>/dev/null\n");
    s
}

} // verus!
