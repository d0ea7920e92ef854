//! Early-boot unlock daemon core: the greeter wire format, the login state
//! machine that answers disk-encryption prompts, the credential handoff
//! descriptor and the keyboard fail-safe rules.

pub mod control_server;
pub mod decimal;
pub mod failsafe;
pub mod ini_file;
pub mod login_controller;
pub mod pam_module;
pub mod password_agent;
pub mod power_actions;
pub mod sddm_config;
pub mod secret;
pub mod text;
pub mod utf16;
pub mod wire;
