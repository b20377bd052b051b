//! A bookmark store with folders and tags, searched with a small query
//! language.
//!
//! A query mixes keywords, `#tag` terms and `/path` terms; juxtaposition
//! means *and*, `|` means *or*, and parentheses group. The library reads a
//! query ([`lexer`], [`parser`], [`query`]), joins its path terms to the
//! folder that the search starts from ([`path`]), compiles it to a filter
//! over bookmarks ([`compiler`]) and says which bookmarks of a store the
//! filter admits ([`matching`]). A search ([`search`]) returns a page of
//! the admitted bookmarks, newest id first, each with its folder and its
//! tags ([`details`]).
//!
//! Around this core stand the rows of the store ([`store`]), the errors
//! ([`errors`]), what the HTTP interface decides without the database
//! ([`api`], [`folders`], [`tags`]), the client side of that interface
//! ([`web`]) and random names ([`random`]). [`text`] holds the character
//! helpers that the rest is built on.
//!
//! Every function is verified against its contract; the contracts are
//! stated over character sequences and over the mathematical values of the
//! rows.
pub mod api;
pub mod compiler;
pub mod details;
pub mod errors;
pub mod folders;
pub mod lexer;
pub mod matching;
pub mod parser;
pub mod path;
pub mod query;
pub mod random;
pub mod search;
pub mod store;
pub mod tags;
pub mod text;
pub mod web;
