//! Rendering an alias for one shell, with no managed names to clean up.
use vstd::prelude::*;
use crate::error::AliasError;
use crate::model::{AliasRecord, ManagedNameSet, ShellKind};
use crate::shells::bash::{bash_render_spec, text_view};
use crate::shells::powershell::ps_render_spec;

verus! {

/// The text of an alias for a shell, given whether its target path exists:
/// Bash and zsh share one text, the two PowerShell versions another; other
/// shells are not supported.
pub open spec fn shell_render_spec(alias: AliasRecord, shell: ShellKind, target_exists: bool) -> Result<Seq<char>, AliasError> {
    match shell {
        ShellKind::Bash | ShellKind::Zsh => bash_render_spec(alias@, alias.executable, Seq::empty(), target_exists),
        ShellKind::PowerShell5 | ShellKind::PowerShell7 => ps_render_spec(
            alias@,
            alias.executable,
            shell,
            Seq::empty(),
            target_exists,
        ),
        _ => Err(AliasError::ShellNotInstalled),
    }
}

/// The text of an alias for one shell; a target path is checked on disk.
pub fn render(alias: &AliasRecord, shell: &ShellKind) -> (r: Result<String, AliasError>)
    ensures
        exists|e: bool| text_view(r) == shell_render_spec(*alias, *shell, e),
{
    let names = ManagedNameSet { current: Vec::new(), retired: Vec::new() };
    proof {
        assert(crate::shells::bash::names_view(names) =~= Seq::<Seq<char>>::empty());
    }
    let r = match shell {
        ShellKind::Bash => crate::shells::bash::render(alias, &names),
        ShellKind::Zsh => crate::shells::zsh::render(alias, &names),
        ShellKind::PowerShell5 | ShellKind::PowerShell7 => crate::shells::powershell::render(alias, *shell, &names),
        _ => Err(AliasError::ShellNotInstalled),
    };
    proof {
        let nv = crate::shells::bash::names_view(names);
        if *shell == ShellKind::Bash || *shell == ShellKind::Zsh {
            let e = choose|e: bool| text_view(r) == bash_render_spec(alias@, alias.executable, nv, e);
            assert(text_view(r) == shell_render_spec(*alias, *shell, e));
        } else if *shell == ShellKind::PowerShell5 || *shell == ShellKind::PowerShell7 {
            let e = choose|e: bool| text_view(r) == ps_render_spec(alias@, alias.executable, *shell, nv, e);
            assert(text_view(r) == shell_render_spec(*alias, *shell, e));
        } else {
            assert(text_view(r) == shell_render_spec(*alias, *shell, true));
        }
    }
    r
}

} // verus!
