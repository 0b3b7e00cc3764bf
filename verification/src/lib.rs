//! A verified CSS minifier: a single-pass transducer that strips comments,
//! line breaks, and insignificant spaces from a stylesheet without touching
//! the meaning of its rules, together with the filename admission check and
//! the path-splitting helper that a command line around it needs.

pub mod argparse;
pub mod laws;
pub mod minify;
