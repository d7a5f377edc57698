//! The gateway's address and its checks.
use vstd::prelude::*;

use crate::json::{
    law_object_shows_each_member, literal, member_views, render_object, rendered_object, to_literal,
};
use crate::search::{dec_u64, decimal, tells};
use crate::text::{cat3, str_eq};

verus! {

/// Where the gateway listens.
pub struct A2aState {
    pub host: String,
    pub port: u16,
}

impl A2aState {
    /// The address to bind.
    pub fn address(&self) -> (r: String)
        ensures
            r@ == self.host@ + ":"@ + decimal(self.port as nat),
    {
        cat3(self.host.as_str(), ":", dec_u64(self.port as u64).as_str())
    }
}

/// Why a call is refused before it is dispatched; only JSON-RPC 2.0 is spoken.
pub fn refused_version(jsonrpc: &str) -> (r: Option<&'static str>)
    ensures
        match r {
            None => jsonrpc@ == "2.0"@,
            Some(why) => jsonrpc@ != "2.0"@ && why@ == "Invalid JSON-RPC version, expected 2.0"@,
        },
{
    if str_eq(jsonrpc, "2.0") {
        None
    } else {
        Some("Invalid JSON-RPC version, expected 2.0")
    }
}

/// The health report.
pub open spec fn health_text(version: Seq<char>) -> Seq<char> {
    rendered_object(
        seq![
            ("protocol"@, literal("A2A"@)),
            ("protocol_version"@, literal("1.0"@)),
            ("provider"@, literal("OpenCrabs Community"@)),
            ("status"@, literal("ok"@)),
            ("version"@, literal(version)),
        ],
    )
}

/// The health report.
pub fn health_check(version: &str) -> (r: String)
    ensures
        r@ == health_text(version@),
{
    let mut v: Vec<(String, String)> = Vec::new();
    v.push(("protocol".to_owned(), to_literal("A2A")));
    v.push(("protocol_version".to_owned(), to_literal("1.0")));
    v.push(("provider".to_owned(), to_literal("OpenCrabs Community")));
    v.push(("status".to_owned(), to_literal("ok")));
    v.push(("version".to_owned(), to_literal(version)));
    assert(member_views(v@) =~= seq![
        ("protocol"@, literal("A2A"@)),
        ("protocol_version"@, literal("1.0"@)),
        ("provider"@, literal("OpenCrabs Community"@)),
        ("status"@, literal("ok"@)),
        ("version"@, literal(version@)),
    ]);
    render_object(&v)
}

/// The health report tells that the gateway is well, which protocol it speaks
/// and which version runs.
pub proof fn law_health_tells_version_and_protocol(version: Seq<char>)
    ensures
        tells(health_text(version), literal("version"@) + ":"@ + literal(version)),
        tells(health_text(version), literal("status"@) + ":"@ + literal("ok"@)),
        tells(health_text(version), literal("protocol"@) + ":"@ + literal("A2A"@)),
        tells(health_text(version), literal("protocol_version"@) + ":"@ + literal("1.0"@)),
        tells(health_text(version), literal("provider"@) + ":"@ + literal("OpenCrabs Community"@)),
{
    let ms = seq![
        ("protocol"@, literal("A2A"@)),
        ("protocol_version"@, literal("1.0"@)),
        ("provider"@, literal("OpenCrabs Community"@)),
        ("status"@, literal("ok"@)),
        ("version"@, literal(version)),
    ];
    law_object_shows_each_member(ms, 0);
    law_object_shows_each_member(ms, 1);
    law_object_shows_each_member(ms, 2);
    law_object_shows_each_member(ms, 3);
    law_object_shows_each_member(ms, 4);
}

} // verus!
