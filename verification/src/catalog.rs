//! Data carried by the wrapped discovery handler: the catalogue entries it
//! recommends from, and the request it answers.  The handler itself is
//! opaque to the protocol layer; these are the plain values that cross its
//! boundary.

use vstd::prelude::*;

verus! {

/// One catalogue entry describing a recommendable server.
pub struct McpEntry {
    pub name: String,
    pub endpoint: String,
    pub version: String,
    pub capabilities: Vec<String>,
    pub desc: String,
}

/// A discovery request as the wrapped handler sees it: the query text,
/// optional raw filter text, and the caller's kind.
pub struct DiscoverRequest {
    pub query: String,
    pub filters: Option<String>,
    pub client_type: Option<String>,
}

impl McpEntry {
    pub fn new(
        name: String,
        endpoint: String,
        version: String,
        capabilities: Vec<String>,
        desc: String,
    ) -> (r: McpEntry)
        ensures
            r.name@ == name@,
            r.endpoint@ == endpoint@,
            r.version@ == version@,
            r.capabilities@ == capabilities@,
            r.desc@ == desc@,
    {
        McpEntry { name, endpoint, version, capabilities, desc }
    }
}

} // verus!
