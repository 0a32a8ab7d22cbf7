//! Shared request and response envelopes the front end hands the engine.

use vstd::prelude::*;
use vstd::string::*;

verus! {

/// Common command-line options of the hosting service.
#[derive(Debug, Clone, PartialEq, Eq)]
pub struct CommonOptions {
    pub host: String,
    pub ztm: Option<String>,
    pub relay_port: u16,
    pub ztm_agent_port: u16,
    pub ztm_hub_port: u16,
    pub ca_port: u16,
    pub bootstrap_node: Option<String>,
}

/// The query parameters a front end may hand over, each optional.
#[derive(Debug, Clone, PartialEq, Eq)]
pub struct GetParams {
    pub service: Option<String>,
    pub refspec: Option<String>,
    pub id: Option<String>,
    pub path: Option<String>,
    pub limit: Option<String>,
    pub cursor: Option<String>,
    pub identifier: Option<String>,
    pub port: Option<u16>,
}

/// A uniform response envelope: a success mark, the payload when there
/// is one, and a message when there is not.
#[derive(Debug, Clone, PartialEq, Eq)]
pub struct CommonResult<T> {
    pub req_result: bool,
    pub data: Option<T>,
    pub err_message: String,
}

impl<T> CommonResult<T> {
    /// A successful envelope around the payload, with no message.
    pub fn success(data: Option<T>) -> (r: Self)
        ensures
            r.req_result,
            r.data == data,
            r.err_message@ == Seq::<char>::empty(),
    {
        CommonResult { req_result: true, data, err_message: String::new() }
    }

    /// A failed envelope carrying the message, with no payload.
    pub fn failed(err_message: &str) -> (r: Self)
        ensures
            !r.req_result,
            r.data is None,
            r.err_message@ == err_message@,
    {
        CommonResult { req_result: false, data: None, err_message: err_message.to_owned() }
    }
}

} // verus!
