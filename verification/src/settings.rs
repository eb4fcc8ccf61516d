//! The persisted configuration as plain values: host and port text for the
//! two remote systems, the default timing texts, and the favourite time
//! presets. Reading and writing the configuration document is the
//! caller's business; this module fixes the defaults.

use vstd::prelude::*;
use vstd::string::StringExecFns;

verus! {

/// The default duration text prefilled for a new entry: five minutes.
pub fn default_duration_val() -> (s: String)
    ensures
        s@ == "00:05:00"@,
{
    String::from_str("00:05:00")
}

/// The default end-time text: the zero sentinel, meaning unset.
pub fn default_end_time_val() -> (s: String)
    ensures
        s@ == "00:00:00"@,
{
    String::from_str("00:00:00")
}

/// Host and port of the playlist source and the rundown destination, the
/// default timing texts, and the favourite time presets.
#[derive(Debug, Clone, PartialEq)]
pub struct AppSettings {
    pub pp_host: String,
    pub pp_port: String,
    pub ot_host: String,
    pub ot_port: String,
    pub default_duration: String,
    pub default_end_time: String,
    pub favorite_durations: Vec<String>,
    pub favorite_end_times: Vec<String>,
}

impl Default for AppSettings {
    /// Both systems on the local machine at their usual ports, a
    /// five-minute default duration, an unset default end time, and no
    /// favourites.
    fn default() -> (s: AppSettings)
        ensures
            s.pp_host@ == "localhost"@,
            s.pp_port@ == "1025"@,
            s.ot_host@ == "localhost"@,
            s.ot_port@ == "4001"@,
            s.default_duration@ == "00:05:00"@,
            s.default_end_time@ == "00:00:00"@,
            s.favorite_durations@.len() == 0,
            s.favorite_end_times@.len() == 0,
    {
        AppSettings {
            pp_host: String::from_str("localhost"),
            pp_port: String::from_str("1025"),
            ot_host: String::from_str("localhost"),
            ot_port: String::from_str("4001"),
            default_duration: default_duration_val(),
            default_end_time: default_end_time_val(),
            favorite_durations: Vec::new(),
            favorite_end_times: Vec::new(),
        }
    }
}

} // verus!
