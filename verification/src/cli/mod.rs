//! The command-line client's logic: the RPC seam its commands run through,
//! and the helpers that shape requests and responses.

pub mod collections;
pub mod commands;
pub mod items;
pub mod lookup;
pub mod search;

use vstd::prelude::*;
use crate::json::{Json, JsonV};
use crate::rpc::{error_text, RpcError, Transport, ZoteroRpc};

verus! {

/// One answered call: the method, its parameters, and the reply (the result,
/// or the error text).
pub struct Exchange {
    pub method: Seq<char>,
    pub params: Option<JsonV>,
    pub reply: Result<JsonV, Seq<char>>,
}

pub open spec fn exchange(
    method: Seq<char>,
    params: Option<JsonV>,
    reply: Result<JsonV, Seq<char>>,
) -> Exchange {
    Exchange { method, params, reply }
}

/// Parameters by their view.
pub open spec fn opt_json(o: Option<Json>) -> Option<JsonV> {
    match o {
        Some(p) => Some(p@),
        None => None,
    }
}

/// A result by its view.
pub open spec fn json_result(r: Result<Json, String>) -> Result<JsonV, Seq<char>> {
    match r {
        Ok(v) => Ok(v@),
        Err(e) => Err(e@),
    }
}

/// A client result by its view, an error by its text.
pub open spec fn rpc_result(r: Result<Json, RpcError>) -> Result<JsonV, Seq<char>> {
    match r {
        Ok(v) => Ok(v@),
        Err(e) => Err(error_text(e)),
    }
}

/// `after` is `before` and one more call, of `method` with `params`.
pub open spec fn called(
    before: Seq<Exchange>,
    after: Seq<Exchange>,
    method: Seq<char>,
    params: Option<JsonV>,
) -> bool {
    &&& after.len() == before.len() + 1
    &&& after.drop_last() == before
    &&& after.last().method == method
    &&& after.last().params == params
}

/// The reply to the last call.
pub open spec fn replied(after: Seq<Exchange>) -> Result<JsonV, Seq<char>> {
    after.last().reply
}

/// Something that answers JSON-RPC calls with a result or an error text. It
/// keeps, as a ghost, the calls it has answered. A stand-in written in plain
/// Rust, such as a test double, keeps no record and stands outside this
/// contract: what the commands state of their calls is proved for callers
/// that keep it.
pub trait RpcCaller {
    /// The calls answered so far, oldest first. The empty default is what a
    /// plain-Rust stand-in has; such a stand-in cannot meet `call`'s contract,
    /// and nothing verified here relies on one.
    closed spec fn exchanges(&self) -> Seq<Exchange> {
        Seq::empty()
    }

    fn call(&mut self, method: &str, params: Option<Json>) -> (r: Result<Json, String>)
        ensures
            final(self).exchanges() == old(self).exchanges().push(
                exchange(method@, opt_json(params), json_result(r)),
            ),
    ;
}

impl<T: Transport> RpcCaller for ZoteroRpc<T> {
    open spec fn exchanges(&self) -> Seq<Exchange> {
        self.history()
    }

    /// The live client; its errors are given as their text.
    fn call(&mut self, method: &str, params: Option<Json>) -> (r: Result<Json, String>) {
        match ZoteroRpc::call(self, method, params) {
            Ok(v) => Ok(v),
            Err(e) => Err(e.to_string()),
        }
    }
}

} // verus!
