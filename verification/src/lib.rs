//! Resolution of rhythm-game difficulty tables: from an entry URL and the
//! documents found behind it to one consistent table.
//!
//! A difficulty table is a catalogue of charts, each with a level. It is
//! published as a header document in JSON, which names the table and says
//! where the chart list is, and often behind an HTML page that names the
//! header document. To resolve a table is to go from the entry URL to the
//! header, check it, go on to the chart list, and derive the index of the
//! levels in use.
//!
//! This crate takes every decision on that way and leaves every transfer
//! and every decoding to its caller. [`parse`] and [`parse_from_json`] begin
//! a resolution. It then stands at a [`Stage`], whose
//! [`request`](Stage::request) says what the caller is to do; with the
//! caller's [`Reply`], [`advance`] takes it to the next stage, to the
//! finished [`DifficultTable`] or to the [`ParseError`] that ends it.
//!
//! The parts, from the leaves up: [`text`] searches character sequences;
//! [`url`] classifies entry URLs and resolves references; [`html`] finds the
//! reference to the header document in a page; [`header`] checks a header;
//! [`courses`] turns the grouped courses of a document into a flat list and
//! back; [`order`] compares levels, [`sorting`] puts them in order and
//! [`levels`] derives the level index; [`resolver`] is the resolution itself.

pub mod courses;
pub mod error;
pub mod header;
pub mod html;
pub mod levels;
pub mod order;
pub mod resolver;
pub mod sorting;
pub mod table;
pub mod text;
pub mod url;

pub use error::ParseError;
pub use resolver::advance;
pub use resolver::parse;
pub use resolver::parse_from_json;
pub use resolver::Progress;
pub use resolver::Reply;
pub use resolver::Request;
pub use resolver::Stage;
pub use table::DifficultTable;
pub use table::DifficultTableCourse;
pub use table::DifficultTableCourseTrophy;
pub use table::DifficultTableElement;
