//! A dispatcher that routes requests round-robin over a growable pool of
//! workers, the decisions of those workers, and the laws that the whole
//! protocol keeps.
pub mod dispatcher;
pub mod epoch;
pub mod producers;
pub mod protocol;
pub mod report;
pub mod request;
pub mod worker;
