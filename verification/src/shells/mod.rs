pub mod bash;
pub mod common;
pub mod powershell;
pub mod zsh;
