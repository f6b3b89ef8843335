//! trana: the verified core of a distributed social and content backend.
//!
//! Everything written to trana is a [`Record`]: an authored, content-addressed envelope, with an
//! optional signature, around a [`Body`]. A record's id is the hash of its canonical bytes, so the same
//! content always has the same id. Folding records through [`State`] yields the read-model that every
//! query is answered from.
//!
//! The layers, from the bottom up:
//!
//! - texts, tables, ballots, ranks, sums and IEEE doubles as plain values: [`text`], [`stamp`],
//!   [`table`], [`ballot`], [`order`], [`sums`], [`double`], [`extra`];
//! - what is published: [`model`], [`refs`], and as bytes: [`codec`], [`canonical`], [`crypto`],
//!   [`record`];
//! - the read-model: its mathematics in [`readmodel`], [`convergence`], [`laws`],
//!   [`listing`] and [`agreement`], the
//!   executable fold and its queries in [`state`], [`feed`], [`streams`], [`documents`], [`diff`],
//!   [`people`], [`governance`] and [`karma`];
//! - the node: [`proto`], [`store`], [`engine`], [`service`], [`dispatch`], [`auth`], [`replicate`],
//!   [`compute`];
//! - the laws: what the read-model shows, told from the records alone, in [`history`], [`playback`],
//!   [`archive`] and [`repute`]; how records lie in their bytes in [`layout`]; how feeds are read in
//!   [`reading`]; what requests and replies mean in [`publishing`] and [`serving`];
//! - the client: [`platform`], [`client`], [`mime`].
#![allow(unused_imports)]

pub mod text;
pub mod stamp;
pub mod table;
pub mod ballot;
pub mod double;
pub mod extra;
pub mod refs;
pub mod model;
pub mod crypto;
pub mod codec;
pub mod canonical;
pub mod layout;
pub mod record;
pub mod readmodel;
pub mod order;
pub mod sums;
pub mod state;
pub mod convergence;
pub mod governance;
pub mod feed;
pub mod streams;
pub mod diff;
pub mod documents;
pub mod karma;
pub mod people;
pub mod platform;
pub mod proto;
pub mod store;
pub mod replicate;
pub mod compute;
pub mod laws;
pub mod listing;
pub mod agreement;
pub mod reading;
pub mod history;
pub mod playback;
pub mod repute;
pub mod archive;
pub mod engine;
pub mod service;
pub mod dispatch;
pub mod publishing;
pub mod serving;
pub mod auth;
pub mod mime;
pub mod client;

use vstd::prelude::*;

pub use crate::feed::{PostView, SortBy};
pub use crate::model::{
    Body, Link, Media, MediaKind, MediaRef, Post, Profile, StreamEnd, StreamKind, StreamSegment, StreamStart, Vote,
};
pub use crate::people::ProfileView;
pub use crate::record::{canonical_bytes, cid, Record, RecordError};
pub use crate::state::State;
pub use crate::streams::StreamView;

verus! {

/// A node id: 64 hex digits of an ed25519 public key. Authors, voters and owners are node ids.
pub type NodeIdHex = String;

} // verus!
