//! Reformat a download-link manifest (one URL per line) into relative output
//! paths for a downloader that keeps the remote directory structure.
//!
//! Each line that starts with `http` is parsed as an absolute URL; its path
//! segments, optionally truncated to start at a configured root segment, give
//! the output directory (all segments but the last) and filename (the last
//! segment).

pub mod lines;
pub mod segments;
pub mod urls;
pub mod reformat;

pub use lines::is_link_line;
pub use lines::split_lines;
pub use reformat::LinkError;
pub use reformat::LinkReport;
pub use reformat::derive_output;
pub use reformat::process_content;
pub use reformat::process_line;
pub use reformat::render_report;
pub use segments::effective_path;
pub use segments::join_segments;
