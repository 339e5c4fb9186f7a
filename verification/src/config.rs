//! The server list a client reads at start: a JSON array of addresses.

use vstd::prelude::*;
use crate::client::sender::RequestSender;

verus! {

/// The JSON library's error type.
#[verifier::external_type_specification]
#[verifier::external_body]
pub struct ExJsonError(serde_json::Error);

/// The strings of a JSON document that is an array of strings, as
/// `serde_json` reads it into a `Vec<String>`; `None` when it reads no such
/// array from the text.
pub uninterp spec fn json_string_list(text: Seq<char>) -> Option<Seq<Seq<char>>>;

/// `serde_json::from_str::<Vec<String>>`: succeeds exactly when the text is a
/// JSON array of strings, and its result is named [`json_string_list`].
#[verifier::external_body]
fn parse_string_list(text: &str) -> (res: Result<Vec<String>, serde_json::Error>)
    ensures
        res is Ok <==> json_string_list(text@) is Some,
        res matches Ok(v) ==> v@.map_values(|s: String| s@) == json_string_list(text@)->0,
{
    serde_json::from_str::<Vec<String>>(text)
}

/// Why a server list was refused.
#[derive(PartialEq, Eq, Structural, Clone, Copy, Debug)]
pub enum ConfigError {
    /// The text is not a JSON array of strings.
    InvalidServerList,
}

/// Reads a server list: the addresses of a JSON array of strings, in order.
pub fn load_servers(text: &str) -> (res: Result<Vec<String>, ConfigError>)
    ensures
        match res {
            Ok(v) => json_string_list(text@) == Some(v@.map_values(|s: String| s@)),
            Err(e) => e == ConfigError::InvalidServerList && json_string_list(text@) is None,
        },
{
    match parse_string_list(text) {
        Ok(v) => Ok(v),
        Err(_) => Err(ConfigError::InvalidServerList),
    }
}

impl RequestSender {
    /// A sender named `name` for the servers listed in `servers_json`, with
    /// all counters zero; refused when the list is not a JSON array of
    /// strings.
    pub fn from_server_list(name: String, servers_json: &str) -> (res: Result<RequestSender, ConfigError>)
        ensures
            match res {
                Ok(s) => {
                    &&& json_string_list(servers_json@) == Some(s@.servers)
                    &&& s@.name == name@
                    &&& s@.per_server == seq![(0u32, 0u32), (0u32, 0u32), (0u32, 0u32)]
                    &&& s@.total_sent == 0
                    &&& s@.successful == 0
                    &&& s@.avg_response_time == 0
                    &&& s@.pending is None
                },
                Err(e) => e == ConfigError::InvalidServerList && json_string_list(servers_json@) is None,
            },
    {
        match load_servers(servers_json) {
            Ok(servers) => Ok(RequestSender::new(name, servers)),
            Err(e) => Err(e),
        }
    }
}

} // verus!
