//! The system information shown beside the frames: its entries, how each
//! is laid out, and the uptime as text.

use vstd::prelude::*;
use crate::text::{decimal, u64_to_decimal};
use crate::term::{goto, goto_spec};

verus! {

/// What follows an entry's value.
#[derive(Clone, Copy, Debug, PartialEq, Eq, Structural)]
pub enum SpaceType {
    Empty,
    Single,
    Double,
    Line,
    DoubleLine,
}

pub open spec fn dashes(n: nat) -> Seq<char> {
    Seq::new(n, |i: int| '-')
}

impl SpaceType {
    pub open spec fn spec_str(self) -> Seq<char> {
        match self {
            SpaceType::Empty => seq![],
            SpaceType::Single => seq!['\n'],
            SpaceType::Double => seq!['\n', '\n'],
            SpaceType::Line => seq!['\n'] + dashes(9),
            SpaceType::DoubleLine => seq!['\n'] + dashes(11) + seq!['\n'],
        }
    }

    /// The text that follows an entry's value.
    pub fn to_str(&self) -> (r: &'static str)
        ensures
            r@ == self.spec_str(),
    {
        match self {
            SpaceType::Empty => {
                let s = "";
                proof { reveal_strlit(""); assert(s@ =~= self.spec_str()); }
                s
            },
            SpaceType::Single => {
                let s = "\n";
                proof { reveal_strlit("\n"); assert(s@ =~= self.spec_str()); }
                s
            },
            SpaceType::Double => {
                let s = "\n\n";
                proof { reveal_strlit("\n\n"); assert(s@ =~= self.spec_str()); }
                s
            },
            SpaceType::Line => {
                let s = "\n---------";
                proof { reveal_strlit("\n---------"); assert(s@ =~= self.spec_str()); }
                s
            },
            SpaceType::DoubleLine => {
                let s = "\n-----------\n";
                proof { reveal_strlit("\n-----------\n"); assert(s@ =~= self.spec_str()); }
                s
            },
        }
    }
}

/// One entry: its name, its value, whether the name is shown, and what
/// follows the value.
#[derive(Debug)]
pub struct InfoValuePair {
    pub name: String,
    pub value: String,
    pub omit_name: bool,
    pub space: SpaceType,
}

/// The entries shown once, at start.
#[derive(Debug)]
pub struct StaticInfo {
    pub host_name: InfoValuePair,
    pub os: InfoValuePair,
    pub kernel: InfoValuePair,
    pub cpu: InfoValuePair,
    pub gpu: InfoValuePair,
    pub uptime: InfoValuePair,
}

impl StaticInfo {
    pub open spec fn as_array_spec(&self) -> Seq<&InfoValuePair> {
        seq![&self.host_name, &self.os, &self.kernel, &self.cpu, &self.gpu, &self.uptime]
    }

    /// The entries in the order they are shown.
    pub fn as_array(&self) -> (r: [&InfoValuePair; 6])
        ensures
            r@ == self.as_array_spec(),
    {
        let r = [&self.host_name, &self.os, &self.kernel, &self.cpu, &self.gpu, &self.uptime];
        assert(r@ =~= self.as_array_spec());
        r
    }
}

/// `n` hours as shown: nothing for none, else the count and `hr` or `hrs`,
/// and a space.
pub open spec fn hours_text(n: nat) -> Seq<char> {
    if n == 0 {
        seq![]
    } else if n == 1 {
        decimal(n) + seq![' ', 'h', 'r', ' ']
    } else {
        decimal(n) + seq![' ', 'h', 'r', 's', ' ']
    }
}

/// `n` minutes as shown: the count and `min` or `mins`.
pub open spec fn minutes_text(n: nat) -> Seq<char> {
    if n == 1 {
        decimal(n) + seq![' ', 'm', 'i', 'n']
    } else {
        decimal(n) + seq![' ', 'm', 'i', 'n', 's']
    }
}

/// An uptime of `secs` seconds, in whole hours and the minutes beyond them.
pub open spec fn uptime_spec(secs: u64) -> Seq<char> {
    hours_text(secs as nat / 3600) + minutes_text((secs as nat / 60) % 60)
}

/// Writes an uptime of `secs` seconds, as `2 hrs 5 mins` or `1 min`.
pub fn format_uptime(secs: u64) -> (r: String)
    ensures
        r@ == uptime_spec(secs),
{
    let hours = secs / 3600;
    let minutes = secs / 60 - hours * 60;
    assert(minutes == (secs as nat / 60) % 60) by (nonlinear_arith)
        requires hours == secs as nat / 3600, minutes == secs as nat / 60 - hours * 60;
    let mut out = String::new();
    if hours >= 1 {
        let h = u64_to_decimal(hours);
        out.append(h.as_str());
        let unit = if hours == 1 { " hr " } else { " hrs " };
        proof {
            reveal_strlit(" hr ");
            reveal_strlit(" hrs ");
        }
        out.append(unit);
    }
    let m = u64_to_decimal(minutes);
    out.append(m.as_str());
    let unit = if minutes == 1 { " min" } else { " mins" };
    proof {
        reveal_strlit(" min");
        reveal_strlit(" mins");
    }
    out.append(unit);
    assert(out@ =~= uptime_spec(secs));
    out
}

/// The column where the entries start: two past the frames' width.
pub open spec fn info_column_spec(ascii_w: u32) -> u16 {
    if ascii_w as int + 2 > u16::MAX { u16::MAX } else { (ascii_w + 2) as u16 }
}

/// The column where the entries start, two past the frames' width of
/// `ascii_w` characters, at most the last column a terminal can address.
pub fn info_column(ascii_w: u32) -> (r: u16)
    ensures
        r == info_column_spec(ascii_w),
        r >= 2,
{
    if ascii_w > 65533 { 65535 } else { (ascii_w + 2) as u16 }
}

/// An entry as printed: the cursor moved to `column`, `row`; the name and
/// `: ` unless the name is left out; the value; what follows it.
pub open spec fn info_line_spec(name: Seq<char>, value: Seq<char>, omit_name: bool, space: SpaceType, column: u16, row: u16) -> Seq<char> {
    goto_spec(column, row) + (if omit_name { seq![] } else { name + seq![':', ' '] }) + value + space.spec_str()
}

/// Lays out one entry at `column`, `row`.
pub fn info_line(pair: &InfoValuePair, column: u16, row: u16) -> (r: String)
    requires
        column >= 1,
        row >= 1,
    ensures
        r@ == info_line_spec(pair.name@, pair.value@, pair.omit_name, pair.space, column, row),
{
    let mut out = goto(column, row);
    if !pair.omit_name {
        out.append(pair.name.as_str());
        out.append(": ");
        proof { reveal_strlit(": "); }
    }
    out.append(pair.value.as_str());
    out.append(pair.space.to_str());
    assert(out@ =~= info_line_spec(pair.name@, pair.value@, pair.omit_name, pair.space, column, row));
    out
}

/// Lays out every entry, one per row from row 2 down, beside frames
/// `ascii_w` characters wide.
pub fn info_lines(info: &StaticInfo, ascii_w: u32) -> (r: Vec<String>)
    ensures
        r.len() == 6,
        forall|i: int| 0 <= i < 6 ==> {
            let p = #[trigger] info.as_array_spec()[i];
            r@[i]@ == info_line_spec(p.name@, p.value@, p.omit_name, p.space, info_column_spec(ascii_w), (i + 2) as u16)
        },
{
    let column = info_column(ascii_w);
    let entries = info.as_array();
    let mut lines: Vec<String> = Vec::new();
    let mut i: usize = 0;
    while i < 6
        invariant
            0 <= i <= 6,
            column == info_column_spec(ascii_w),
            column >= 1,
            entries@ == info.as_array_spec(),
            lines.len() == i,
            forall|k: int| 0 <= k < i ==> {
                let p = #[trigger] info.as_array_spec()[k];
                lines@[k]@ == info_line_spec(p.name@, p.value@, p.omit_name, p.space, column, (k + 2) as u16)
            },
        decreases 6 - i,
    {
        let line = info_line(entries[i], column, (i + 2) as u16);
        lines.push(line);
        i = i + 1;
    }
    lines
}

/// Builds the entries from what the system reports: the host name, the
/// system's name and version, the kernel, the processor, the graphics
/// adapter's name and kind, and the uptime in seconds.
pub fn static_info(
    host_name: String,
    os_name: &str,
    os_version: &str,
    kernel: String,
    cpu: String,
    gpu_name: &str,
    gpu_kind: &str,
    uptime_secs: u64,
) -> (r: StaticInfo)
    ensures
        r.host_name.name@ == "Host Name"@ && r.host_name.value@ == host_name@ && r.host_name.omit_name
            && r.host_name.space == SpaceType::DoubleLine,
        r.os.name@ == "OS"@ && r.os.value@ == os_name@ + seq![' ', '('] + os_version@ + seq![')']
            && !r.os.omit_name && r.os.space == SpaceType::Empty,
        r.kernel.name@ == "Kernel"@ && r.kernel.value@ == kernel@ && !r.kernel.omit_name
            && r.kernel.space == SpaceType::Empty,
        r.cpu.name@ == "CPU"@ && r.cpu.value@ == cpu@ && !r.cpu.omit_name && r.cpu.space == SpaceType::Empty,
        r.gpu.name@ == "GPU"@ && r.gpu.value@ == gpu_name@ + seq![' ', '['] + gpu_kind@ + seq![']']
            && !r.gpu.omit_name && r.gpu.space == SpaceType::Empty,
        r.uptime.name@ == "Uptime"@ && r.uptime.value@ == uptime_spec(uptime_secs) && !r.uptime.omit_name
            && r.uptime.space == SpaceType::Empty,
{
    let mut os = String::from_str(os_name);
    os.append(" (");
    os.append(os_version);
    os.append(")");
    let mut gpu = String::from_str(gpu_name);
    gpu.append(" [");
    gpu.append(gpu_kind);
    gpu.append("]");
    proof {
        reveal_strlit(" (");
        reveal_strlit(")");
        reveal_strlit(" [");
        reveal_strlit("]");
        assert(os@ =~= os_name@ + seq![' ', '('] + os_version@ + seq![')']);
        assert(gpu@ =~= gpu_name@ + seq![' ', '['] + gpu_kind@ + seq![']']);
    }
    StaticInfo {
        host_name: InfoValuePair {
            name: String::from_str("Host Name"),
            value: host_name,
            omit_name: true,
            space: SpaceType::DoubleLine,
        },
        os: InfoValuePair { name: String::from_str("OS"), value: os, omit_name: false, space: SpaceType::Empty },
        kernel: InfoValuePair {
            name: String::from_str("Kernel"),
            value: kernel,
            omit_name: false,
            space: SpaceType::Empty,
        },
        cpu: InfoValuePair { name: String::from_str("CPU"), value: cpu, omit_name: false, space: SpaceType::Empty },
        gpu: InfoValuePair { name: String::from_str("GPU"), value: gpu, omit_name: false, space: SpaceType::Empty },
        uptime: InfoValuePair {
            name: String::from_str("Uptime"),
            value: format_uptime(uptime_secs),
            omit_name: false,
            space: SpaceType::Empty,
        },
    }
}

} // verus!
