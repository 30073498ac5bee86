//! Tool registry and runtime routing: the tool values, which tool a call
//! names, where a remote runtime sends it, and how a container runtime picks
//! its name, port and address.

use vstd::prelude::*;
use crate::text::{decimal, push_decimal, push_str_chars, str_eq, string_of};
use crate::bash::hex_digits;

verus! {

/// Runs a shell command.
#[derive(Debug, Clone, Copy)]
pub struct CmdTool;

/// Reads a file.
#[derive(Debug, Clone, Copy)]
pub struct FileReadTool;

/// Writes a file.
#[derive(Debug, Clone, Copy)]
pub struct FileWriteTool;

/// Finds files by glob pattern under `working_dir`.
#[derive(Debug, Clone)]
pub struct GlobTool {
    pub working_dir: String,
}

/// Searches file contents under `working_dir`.
#[derive(Debug, Clone)]
pub struct GrepTool {
    pub working_dir: String,
}

impl GlobTool {
    /// A glob tool rooted at `working_dir`.
    pub fn new(working_dir: String) -> (r: Self)
        ensures
            r.working_dir == working_dir,
    {
        GlobTool { working_dir }
    }
}

impl GrepTool {
    /// A grep tool rooted at `working_dir`.
    pub fn new(working_dir: String) -> (r: Self)
        ensures
            r.working_dir == working_dir,
    {
        GrepTool { working_dir }
    }
}

/// The first of `names` equal to `action`.
pub open spec fn first_named(names: Seq<String>, action: Seq<char>, i: int) -> Option<int>
    decreases names.len() - i,
{
    if i < 0 || i >= names.len() { None } else if names[i]@ == action { Some(i) } else { first_named(names, action, i + 1) }
}

/// Picks the tool a call names: the first tool whose name is `action`, or
/// the error `Tool <action> not found`.
pub fn find_tool(names: &Vec<String>, action: &str) -> (r: Result<usize, String>)
    ensures
        match r {
            Ok(i) => first_named(names@, action@, 0) == Some(i as int),
            Err(e) => first_named(names@, action@, 0) is None && e@ == "Tool "@ + action@ + " not found"@,
        },
{
    let mut i: usize = 0;
    while i < names.len()
        invariant
            i <= names.len(),
            first_named(names@, action@, 0) == first_named(names@, action@, i as int),
        decreases names.len() - i,
    {
        if str_eq(names[i].as_str(), action) {
            return Ok(i);
        }
        i += 1;
    }
    let mut m: Vec<char> = Vec::new();
    push_str_chars(&mut m, "Tool ");
    push_str_chars(&mut m, action);
    push_str_chars(&mut m, " not found");
    Err(string_of(&m))
}

/// Where a remote runtime sends a tool call.
#[derive(Debug, Clone, PartialEq, Eq)]
pub enum RemoteRoute {
    /// `POST /bash/execute_bash_command`.
    ExecuteBash,
    /// `POST /file/read`.
    ReadFile,
    /// `POST /file/write`.
    WriteFile,
}

/// The peer endpoint path of a route.
pub open spec fn route_path(r: RemoteRoute) -> Seq<char> {
    match r {
        RemoteRoute::ExecuteBash => "/bash/execute_bash_command"@,
        RemoteRoute::ReadFile => "/file/read"@,
        RemoteRoute::WriteFile => "/file/write"@,
    }
}

/// Routes a tool call by name: the bash tool (`execute_bash`, or `cmd`, the
/// name of the local shell tool), `read_file` and `write_file` have endpoints; any other
/// tool is not supported remotely.
pub fn remote_route(action: &str) -> (r: Result<RemoteRoute, String>)
    ensures
        (action@ == "execute_bash"@ || action@ == "cmd"@) ==> r == Ok::<RemoteRoute, String>(RemoteRoute::ExecuteBash),
        action@ != "execute_bash"@ && action@ != "cmd"@ && action@ == "read_file"@ ==> r == Ok::<RemoteRoute, String>(RemoteRoute::ReadFile),
        action@ != "execute_bash"@ && action@ != "cmd"@ && action@ != "read_file"@ && action@ == "write_file"@ ==> r == Ok::<RemoteRoute, String>(RemoteRoute::WriteFile),
        action@ != "execute_bash"@ && action@ != "cmd"@ && action@ != "read_file"@ && action@ != "write_file"@ ==>
            (r matches Err(e) && e@ == "Tool "@ + action@ + " not yet supported via RemoteRuntime API"@),
{
    if str_eq(action, "execute_bash") || str_eq(action, "cmd") {
        return Ok(RemoteRoute::ExecuteBash);
    }
    if str_eq(action, "read_file") {
        return Ok(RemoteRoute::ReadFile);
    }
    if str_eq(action, "write_file") {
        return Ok(RemoteRoute::WriteFile);
    }
    let mut m: Vec<char> = Vec::new();
    push_str_chars(&mut m, "Tool ");
    push_str_chars(&mut m, action);
    push_str_chars(&mut m, " not yet supported via RemoteRuntime API");
    Err(string_of(&m))
}

/// The URL of a route on the peer at `base_url`.
pub fn route_url(base_url: &str, route: RemoteRoute) -> (r: String)
    ensures
        r@ == base_url@ + route_path(route),
{
    let mut m: Vec<char> = Vec::new();
    push_str_chars(&mut m, base_url);
    match route {
        RemoteRoute::ExecuteBash => push_str_chars(&mut m, "/bash/execute_bash_command"),
        RemoteRoute::ReadFile => push_str_chars(&mut m, "/file/read"),
        RemoteRoute::WriteFile => push_str_chars(&mut m, "/file/write"),
    }
    string_of(&m)
}

/// The lowest host port a container runtime binds.
pub const CONTAINER_PORT_BASE: u16 = 3000;

/// The host port for a container, from a random number `r`: within
/// `[3000, 4000)`.
pub fn container_port(r: u16) -> (p: u16)
    ensures
        p as int == CONTAINER_PORT_BASE as int + (r as int) % 1000,
        3000 <= p < 4000,
{
    CONTAINER_PORT_BASE + r % 1000
}

/// An id in the hyphenated 8-4-4-4-12 hex form.
pub open spec fn id_hyphenated(id: u128) -> Seq<char> {
    let n = id as nat;
    hex_digits(n / 0x1000000000000000000000000, 8) + "-"@ + hex_digits(n / 0x100000000000000000000, 4) + "-"@
        + hex_digits(n / 0x10000000000000000, 4) + "-"@ + hex_digits(n / 0x1000000000000, 4) + "-"@ + hex_digits(n, 12)
}

/// The unique name of the container with id `id`.
pub fn container_name(id: u128) -> (r: String)
    ensures
        r@ == "openhands-agent-"@ + id_hyphenated(id),
{
    let mut m: Vec<char> = Vec::new();
    push_str_chars(&mut m, "openhands-agent-");
    crate::bash::push_hex(&mut m, id / 0x1000000000000000000000000, 8);
    push_str_chars(&mut m, "-");
    crate::bash::push_hex(&mut m, id / 0x100000000000000000000, 4);
    push_str_chars(&mut m, "-");
    crate::bash::push_hex(&mut m, id / 0x10000000000000000, 4);
    push_str_chars(&mut m, "-");
    crate::bash::push_hex(&mut m, id / 0x1000000000000, 4);
    push_str_chars(&mut m, "-");
    crate::bash::push_hex(&mut m, id, 12);
    string_of(&m)
}

/// The address of the peer server published on host port `port`.
pub fn container_base_url(port: u16) -> (r: String)
    ensures
        r@ == "http://localhost:"@ + decimal(port as nat),
{
    let mut m: Vec<char> = Vec::new();
    push_str_chars(&mut m, "http://localhost:");
    push_decimal(&mut m, port as u128);
    string_of(&m)
}

/// The port mapping argument that publishes the peer's port 3000 on host
/// port `port`.
pub fn port_mapping(port: u16) -> (r: String)
    ensures
        r@ == decimal(port as nat) + ":3000"@,
{
    let mut m: Vec<char> = Vec::new();
    push_decimal(&mut m, port as u128);
    push_str_chars(&mut m, ":3000");
    string_of(&m)
}

} // verus!
