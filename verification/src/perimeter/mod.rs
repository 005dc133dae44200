//! What the perimeter program itself works with: its licence keys and its console.
pub mod key_system;
pub mod console_manager;
