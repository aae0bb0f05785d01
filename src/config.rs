//! The user's configuration: the text written when none exists, and the
//! tables of names and values it holds.

use vstd::prelude::*;

verus! {

/// The configuration written on first start.
pub const PROGRAM_DEFAULTS: &'static str = "
include_order = [\"host_name\",\"os\",\"kernel\",\"cpu\",\"gpu\",\"linebreak\",\"cpu_usage\",\"uptime\"]

[key_names]
os = \"OS\"
kernel = \"Kernel\"
cpu = \"CPU\"
gpu = \"GPU\"
cpu_usage = \"CPU usage\"
uptime = \"Uptime\"

[key_values]
host_name = \"system_default\"
os = \"system_default\"
kernel = \"system_default\"
cpu = \"system_default\"
gpu = \"system_default\"

[options_defaults]
input = \"None\"
fps = 24
brightness = 1.1
contrast = 1.1
draw_edges = true
edge_threshold = 0.3
overwrite_cache = false
max_width = 0.7
max_height = 1.0
adapter_index = 0
hide_info = false
verbose = false
";

/// The names shown for the information entries.
#[derive(Debug)]
pub struct KeyNames {
    pub os: String,
    pub kernel: String,
    pub cpu: String,
    pub gpu: String,
    pub cpu_usage: String,
    pub uptime: String,
}

/// Values that replace what the system reports; `system_default` keeps it.
#[derive(Debug)]
pub struct KeyValues {
    pub host_name: String,
    pub os: String,
    pub kernel: String,
    pub cpu: String,
    pub gpu: String,
}

} // verus!
