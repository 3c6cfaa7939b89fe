//! What the operations are for: laws over their inputs and results.

pub mod assuming;
pub mod attesting;
pub mod calls;
pub mod chains;
pub mod clients;
pub mod configuring;
pub mod enrolling;
pub mod issuing;
pub mod operating;
pub mod rendering;
pub mod reporting;
pub mod returning;
pub mod sealing;
pub mod texts;
pub mod tokens;
pub mod verifying;
