//! Grade-point averages from an academic-records portal: grade conversion,
//! transcript extraction, policy filtering, and the login session's protocol.

pub mod decimal;
pub mod grade;
pub mod text;
pub mod models;
pub mod gpa;
pub mod extract;
pub mod session;
pub mod logging;
pub mod forms;
