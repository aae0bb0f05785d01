//! The catalog of command-line options shown by the help text, and the
//! layout of one help line.

use vstd::prelude::*;

verus! {

/// One option as the help text describes it.
#[derive(Debug)]
pub struct HelpOption {
    pub short: Option<String>,
    pub long: Option<String>,
    pub desc: Option<String>,
    pub datatype: Option<String>,
}

/// A titled group of options.
#[derive(Debug)]
pub struct OptionGroup {
    pub name: Option<String>,
    pub options: Vec<HelpOption>,
}

/// The text of an option's fields.
pub struct OptionEntry {
    pub short: Option<Seq<char>>,
    pub long: Seq<char>,
    pub desc: Seq<char>,
    pub datatype: Option<Seq<char>>,
}

pub open spec fn opt_view(o: Option<String>) -> Option<Seq<char>> {
    match o {
        Some(s) => Some(s@),
        None => None,
    }
}

pub open spec fn option_view(o: &HelpOption) -> OptionEntry {
    OptionEntry {
        short: opt_view(o.short),
        long: opt_view(o.long).unwrap(),
        desc: opt_view(o.desc).unwrap(),
        datatype: opt_view(o.datatype),
    }
}

/// Whether every field of `o` that the help line prints is present.
pub open spec fn option_complete(o: &HelpOption) -> bool {
    o.long is Some && o.desc is Some
}

pub open spec fn group_view(g: &OptionGroup) -> (Seq<char>, Seq<OptionEntry>) {
    (opt_view(g.name).unwrap(), g.options@.map_values(|o: HelpOption| option_view(&o)))
}

/// The options, group by group.
pub open spec fn catalog() -> Seq<(Seq<char>, Seq<OptionEntry>)> {
    seq![
        (
            "Information options"@,
            seq![
            OptionEntry { short: Some("h"@), long: "help"@, desc: "Display this help message"@, datatype: None },
            OptionEntry { short: Some("v"@), long: "version"@, desc: "Show mofetch version"@, datatype: None },
            OptionEntry { short: Some("V"@), long: "verbose"@, desc: "Show process information"@, datatype: None },
            OptionEntry { short: Some("I"@), long: "hide-info"@, desc: "Do not show system info, and only render the thumbnail"@, datatype: None },
            OptionEntry { short: None, long: "gpus"@, desc: "Get all available GPU adapters by index"@, datatype: None },
            ],
        ),
        (
            "Pre-processing options"@,
            seq![
            OptionEntry { short: Some("o"@), long: "overwrite-cache"@, desc: "Ignore and overwrite existing cache. Useful if the cache is corrupt"@, datatype: None },
            OptionEntry { short: Some("W"@), long: "max-width"@, desc: "Set max width of source image to (0..n) * 100 % of terminal width"@, datatype: Some("float"@) },
            OptionEntry { short: Some("H"@), long: "max-height"@, desc: "Set max height of source image to (0..n) * 100 % of terminal height"@, datatype: Some("float"@) },
            OptionEntry { short: Some("f"@), long: "fps"@, desc: "Set the frames per second"@, datatype: Some("int"@) },
            OptionEntry { short: Some("b"@), long: "brightness"@, desc: "Set the brightness of the input"@, datatype: Some("float"@) },
            OptionEntry { short: Some("c"@), long: "contrast"@, desc: "Set the contrast of the input"@, datatype: Some("float"@) },
            ],
        ),
        (
            "Shader options"@,
            seq![
            OptionEntry { short: Some("a"@), long: "adapter-index"@, desc: "Use GPU adapter with the provided index to specify GPU device. Use --gpus to get available adapters"@, datatype: Some("int"@) },
            OptionEntry { short: Some("n"@), long: "no-edges"@, desc: "Don't draw ASCII edge lines (/ \\ _ |)"@, datatype: None },
            OptionEntry { short: Some("t"@), long: "edge-threshold"@, desc: "Set the required percentage of edge strength in each tile for a tile to be rendered as an edge (0..1). Increasing this value can be useful if stronger edgelines are desired, while decreasing it can reduce the noise created by too many edges from the input."@, datatype: Some("float"@) },
            ],
        )
    ]
}

fn help_option(short: Option<&str>, long: &str, desc: &str, datatype: Option<&str>) -> (r: HelpOption)
    ensures
        option_complete(&r),
        option_view(&r) == (OptionEntry {
            short: match short { Some(s) => Some(s@), None => None },
            long: long@,
            desc: desc@,
            datatype: match datatype { Some(s) => Some(s@), None => None },
        }),
{
    HelpOption {
        short: match short { Some(s) => Some(String::from_str(s)), None => None },
        long: Some(String::from_str(long)),
        desc: Some(String::from_str(desc)),
        datatype: match datatype { Some(s) => Some(String::from_str(s)), None => None },
    }
}

/// The catalog of options that the help text lists.
pub fn init_options() -> (r: Vec<OptionGroup>)
    ensures
        r.len() == catalog().len(),
        forall|g: int| 0 <= g < r.len() ==> (#[trigger] r@[g]).name is Some,
        forall|g: int| 0 <= g < r.len() ==> group_view(&r@[g]) == #[trigger] catalog()[g],
        forall|g: int, k: int| 0 <= g < r.len() && 0 <= k < r@[g].options.len()
            ==> option_complete(#[trigger] &r@[g].options@[k]),
{
    let mut options: Vec<OptionGroup> = Vec::new();
    let mut group: Vec<HelpOption> = Vec::new();
    group.push(help_option(Some("h"), "help", "Display this help message", None));
    group.push(help_option(Some("v"), "version", "Show mofetch version", None));
    group.push(help_option(Some("V"), "verbose", "Show process information", None));
    group.push(help_option(Some("I"), "hide-info", "Do not show system info, and only render the thumbnail", None));
    group.push(help_option(None, "gpus", "Get all available GPU adapters by index", None));
    options.push(OptionGroup { name: Some(String::from_str("Information options")), options: group });
    proof { assert(group_view(&options@[0]) =~= catalog()[0]); }
    let mut group: Vec<HelpOption> = Vec::new();
    group.push(help_option(Some("o"), "overwrite-cache", "Ignore and overwrite existing cache. Useful if the cache is corrupt", None));
    group.push(help_option(Some("W"), "max-width", "Set max width of source image to (0..n) * 100 % of terminal width", Some("float")));
    group.push(help_option(Some("H"), "max-height", "Set max height of source image to (0..n) * 100 % of terminal height", Some("float")));
    group.push(help_option(Some("f"), "fps", "Set the frames per second", Some("int")));
    group.push(help_option(Some("b"), "brightness", "Set the brightness of the input", Some("float")));
    group.push(help_option(Some("c"), "contrast", "Set the contrast of the input", Some("float")));
    options.push(OptionGroup { name: Some(String::from_str("Pre-processing options")), options: group });
    proof { assert(group_view(&options@[1]) =~= catalog()[1]); }
    let mut group: Vec<HelpOption> = Vec::new();
    group.push(help_option(Some("a"), "adapter-index", "Use GPU adapter with the provided index to specify GPU device. Use --gpus to get available adapters", Some("int")));
    group.push(help_option(Some("n"), "no-edges", "Don't draw ASCII edge lines (/ \\ _ |)", None));
    group.push(help_option(Some("t"), "edge-threshold", "Set the required percentage of edge strength in each tile for a tile to be rendered as an edge (0..1). Increasing this value can be useful if stronger edgelines are desired, while decreasing it can reduce the noise created by too many edges from the input.", Some("float")));
    options.push(OptionGroup { name: Some(String::from_str("Shader options")), options: group });
    proof { assert(group_view(&options@[2]) =~= catalog()[2]); }
    options
}

/// Width that the part of a help line before the description is padded to.
pub const HELP_COLUMN: usize = 28;

/// The part of a help line before the padding: `-<short>` or two spaces,
/// ` --<long>`, and ` <datatype>` where the option takes a value.
pub open spec fn help_prefix(e: OptionEntry) -> Seq<char> {
    (match e.short { Some(s) => seq!['-'] + s, None => seq![' ', ' '] })
        + seq![' ', '-', '-'] + e.long
        + (match e.datatype { Some(t) => seq![' ', '<'] + t + seq!['>'], None => seq![] })
}

pub open spec fn spaces(n: nat) -> Seq<char> {
    Seq::new(n, |i: int| ' ')
}

/// A help line: the prefix, spaces up to the description column, and the
/// description.
pub open spec fn help_line_spec(e: OptionEntry) -> Seq<char> {
    let p = help_prefix(e);
    let pad = if p.len() < 28 { (28 - p.len()) as nat } else { 0 };
    p + spaces(pad) + e.desc
}

/// Lays out the help line of one option.
pub fn help_line(option: &HelpOption) -> (r: String)
    requires
        option_complete(option),
    ensures
        r@ == help_line_spec(option_view(option)),
{
    let mut out = String::new();
    match &option.short {
        Some(s) => {
            out.append("-");
            out.append(s.as_str());
        },
        None => {
            out.append("  ");
        },
    }
    out.append(" --");
    match &option.long {
        Some(l) => out.append(l.as_str()),
        None => {},
    }
    match &option.datatype {
        Some(t) => {
            out.append(" <");
            out.append(t.as_str());
            out.append(">");
        },
        None => {},
    }
    proof {
        reveal_strlit("-");
        reveal_strlit("  ");
        reveal_strlit(" --");
        reveal_strlit(" <");
        reveal_strlit(">");
        assert(out@ =~= help_prefix(option_view(option)));
    }
    let len = out.as_str().unicode_len();
    let ghost p = out@;
    let mut i: usize = len;
    while i < HELP_COLUMN
        invariant
            len == p.len(),
            len <= i <= HELP_COLUMN || (i == len && len > HELP_COLUMN),
            out@ == p + spaces((i - len) as nat),
        decreases HELP_COLUMN - i,
    {
        out.append(" ");
        proof {
            reveal_strlit(" ");
            assert(p + spaces((i + 1 - len) as nat) =~= p + spaces((i - len) as nat) + seq![' ']);
        }
        i = i + 1;
    }
    match &option.desc {
        Some(d) => out.append(d.as_str()),
        None => {},
    }
    proof {
        if len >= 28 {
            assert(spaces(0) =~= Seq::<char>::empty());
        }
        assert(out@ =~= help_line_spec(option_view(option)));
    }
    out
}

} // verus!
