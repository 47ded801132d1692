//! Verified core of a documentation-site PDF exporter.
//!
//! The library models a site's sidebar as a tree of menu items, assigns each
//! discovered chapter a dot-separated hierarchical position, derives the
//! origin of the crawled site from its URL, and plans one export job (absolute
//! URL plus destination file name) per navigable chapter.  Browser automation
//! and file output are left to the surrounding application.

pub mod docusaurus;
pub mod pdf;
pub mod text;
pub mod util;
