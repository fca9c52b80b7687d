//! The messages exchanged with handlers that run in another process.
use crate::object::Object;
use vstd::prelude::*;

verus! {

/// A handler's answer to a generic hook call: an optional payload in JSON text, and whether
/// the payload replaces the call's arguments or its result.
#[derive(Clone, Debug)]
pub struct HookAction {
    pub result_or_args: Option<String>,
    pub update_args: bool,
}

/// A handler's answer to a core hook call: the edits that it stages.
#[derive(Clone, Debug)]
pub struct ObjectEdits {
    pub deletes: Vec<String>,
    pub update: Option<Vec<(String, Option<String>)>>,
    pub clear: bool,
}

/// The request that invokes a core hook.
#[derive(Debug)]
pub struct RegCoreHookReply {
    pub call_id: u64,
    pub object: Option<Object>,
    pub old_object: Option<Object>,
    pub session: Option<String>,
    pub identity: String,
}

/// The request that invokes a generic hook.
#[derive(Clone, Debug)]
pub struct RegHookReply {
    pub call_id: u64,
    pub arguments: String,
    pub original_result: Option<String>,
    pub session: String,
    pub identity: String,
}

} // verus!
