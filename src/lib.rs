//! Batch conversion of web pages to PDF files: the cookie-jar parser, the
//! single-page ("mono") paper sizing, and the bookkeeping of a batch run.
pub mod cookie;
pub mod layout;
pub mod batch;
