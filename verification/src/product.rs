//! What callbacks and plugin chains hand back into the system: extracted
//! values, new requests, and the outcomes of middleware stages.

use vstd::prelude::*;

use crate::request::{CallBack, Request};
use crate::response::Response;

verus! {

/// A scalar or nested value of an extracted record.
///
/// A floating-point reading is carried as its raw bit pattern: the core
/// never interprets it, it only moves it through the pipelines.
#[derive(Debug, PartialEq)]
pub enum Value {
    Int(i64),
    Flt(u64),
    Str(String),
    Dat(Vec<u8>),
    Dict(Box<Item>),
    Nil,
}

impl Default for Value {
    fn default() -> (v: Self)
        ensures
            v == Value::Nil,
    {
        Value::Nil
    }
}

/// An extracted record: named values, in the order they were added.
#[derive(Debug, PartialEq)]
pub struct Item {
    entries: Vec<(String, Value)>,
}

impl Item {
    /// The record's entries.
    pub closed spec fn spec_entries(&self) -> Seq<(String, Value)> {
        self.entries@
    }

    pub fn new() -> (it: Self)
        ensures
            it.spec_entries() == Seq::<(String, Value)>::empty(),
    {
        Self { entries: Vec::new() }
    }

    /// Add one named value to the record.
    pub fn insert(&mut self, key: String, value: Value)
        ensures
            final(self).spec_entries() == old(self).spec_entries().push((key, value)),
    {
        self.entries.push((key, value));
    }

    pub fn len(&self) -> (n: usize)
        ensures
            n == self.spec_entries().len(),
    {
        self.entries.len()
    }

    pub fn is_empty(&self) -> (b: bool)
        ensures
            b == (self.spec_entries().len() == 0),
    {
        self.entries.len() == 0
    }
}

/// What a callback or the dispatcher can emit back into the system.
pub enum Product {
    /// A further fetch to schedule.
    NewRequest(Request),
    /// An extracted record bound for the pipeline chain.
    ExtractedItem(Item),
    /// The signal that the crawl is exhausted.
    Finished,
}

/// The configuration of one transfer, as middleware may pre-set it before
/// admission. The embedding program turns this plain description into a
/// handle of the transfer engine when the scheduler registers it.
pub struct TransferConfig {
    pub url: String,
    pub method: HttpMethod,
    pub headers: Vec<String>,
    pub proxy: Option<String>,
}

/// The request method of a transfer.
#[derive(Debug, PartialEq)]
pub enum HttpMethod {
    Get,
    Post,
    Head,
    Custom(String),
}

/// Whether a configuration is the default one built for a pending request:
/// a plain GET of the given URL, nothing pre-set.
pub open spec fn is_default_get(cfg: TransferConfig, url: Seq<char>) -> bool {
    &&& cfg.url@ == url
    &&& cfg.method == HttpMethod::Get
    &&& cfg.headers@ == Seq::<String>::empty()
    &&& cfg.proxy is None
}

impl TransferConfig {
    /// The default transfer for a request nothing pre-configured: a GET.
    pub fn default_get(url: String) -> (cfg: Self)
        ensures
            is_default_get(cfg, url@),
    {
        Self { url, method: HttpMethod::Get, headers: Vec::new(), proxy: None }
    }
}

/// The outcome of one middleware stage.
pub enum MidProduct {
    /// A transfer the middleware configured itself, ready to register.
    ReadyTransfer(TransferConfig, Request),
    /// A synthetic response: dispatch the callback directly, bypassing the
    /// transfer engine.
    ReadyResponse(Response, CallBack),
    /// A request still in need of the default transfer setup.
    PendingRequest(Request),
    /// Drop the request with no further effect.
    Ignore,
}

impl Default for MidProduct {
    fn default() -> (m: Self)
        ensures
            m is Ignore,
    {
        MidProduct::Ignore
    }
}

} // verus!
