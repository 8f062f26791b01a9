//! Platforms without redirection. A server runs there, a client does not.

use vstd::prelude::*;

verus! {

/// The message of an installation that cannot be.
pub open spec fn unsupported() -> Seq<char> {
    "rushtle client mode is not supported on this platform"@
}

/// Rules cannot be installed.
pub fn install(
    _chain: &str,
    _tcp_port: u16,
    _dns_port: u16,
    _subnets_v4: &[String],
    _subnets_v6: &[String],
    _dns: bool,
) -> (r: Result<(), String>)
    ensures
        r matches Err(e) && e@ == unsupported(),
{
    let mut s: String = String::new();
    s.append("rushtle client mode is not supported on this platform");
    assert(s@ =~= unsupported());
    Err(s)
}

/// There are no rules to remove.
pub fn remove(_chain: &str, _has_v6: bool) -> (r: Result<(), String>)
    ensures
        r is Ok,
{
    Ok(())
}

/// The message of a lookup that cannot be.
pub open spec fn no_lookup() -> Seq<char> {
    "original_dst not available on this platform"@
}

/// The original destination of a connection cannot be found out.
pub fn original_dst() -> (r: Result<(String, u16), String>)
    ensures
        r matches Err(e) && e@ == no_lookup(),
{
    let mut s: String = String::new();
    s.append("original_dst not available on this platform");
    assert(s@ =~= no_lookup());
    Err(s)
}

} // verus!
