//! A bulk harvester for an alphabetically indexed online reference site.
//!
//! The crawl proceeds in two phases. Discovery fetches the first result
//! page of each alphabetic index bucket and reads how many result pages
//! that bucket has; from the completed page counts the library generates
//! the full, finite sequence of page addresses. Harvesting then fetches
//! every page, follows the detail links it lists, extracts one term/text
//! record per detail page, and writes the records to uniquely named cache
//! files in a simple delimited text format.

#![verifier::loop_isolation(false)]

pub mod cache;
pub mod crawl;
pub mod errors;
pub mod extract;
pub mod pages;
pub mod progress;
pub mod records;
pub mod retry;
pub mod text;
pub mod worker;
