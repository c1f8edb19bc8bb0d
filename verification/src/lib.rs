//! Lists the local links of a fetched HTML page.
//!
//! A run takes the URL of a page and the text that was fetched from it and
//! gives the links of the page that point to the same origin, each once, in
//! ascending order. The work is done in five steps, one module each:
//!
//! - [`origin`] resolves the URL into its origin and its base path;
//! - [`scan`] scans the text for the values of quoted `href` attributes;
//! - [`classify`] tells local hrefs from the others, and pages from files;
//! - [`linkset`] keeps the paths of the links without duplicates, in order;
//! - [`render`] formats a link for display.
//!
//! [`parsing`] holds the passes over a page for page links and for file
//! links, and [`lister`] the run as a whole. Fetching the page is left to the
//! caller.

pub mod classify;
pub mod error;
pub mod linkset;
pub mod lister;
pub mod origin;
pub mod parsing;
pub mod render;
pub mod scan;
pub mod text;
