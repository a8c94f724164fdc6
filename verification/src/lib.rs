//! A formatter for XML control files that embed Perl code in CDATA sections.

pub mod text;
pub mod pattern;
pub mod handle_ncurly_perl;
pub mod xml_fmt;
pub mod formatter;
pub mod cdata;
pub mod element;
pub mod document;
