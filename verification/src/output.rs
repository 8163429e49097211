//! Output mode of the command-line front end, and the stable error codes it
//! reports to programs that read its JSON output.

use vstd::prelude::*;
use crate::chars::{ascii_lower, char_ascii_lower, contains, find_vec};
use crate::text::chars_of;

verus! {

/// How the command-line front end prints its events.
#[derive(Debug, Clone, Copy, PartialEq, Eq)]
pub enum OutputFormat {
    /// Readable lines for a terminal.
    Text,
    /// One JSON object per line, for programs.
    Json,
}

/// The chosen output configuration.
#[derive(Debug, Clone, Copy, PartialEq, Eq)]
pub struct OutputConfig {
    pub format: OutputFormat,
}

/// A configuration slot that can be set once; later settings are ignored.
#[derive(Debug)]
pub struct OutputSetting {
    config: Option<OutputConfig>,
}

impl OutputSetting {
    /// A slot not yet set.
    pub fn new() -> (s: OutputSetting)
        ensures
            s.spec_config() is None,
    {
        OutputSetting { config: None }
    }

    /// The configuration stored in the slot, if any.
    pub closed spec fn spec_config(&self) -> Option<OutputConfig> {
        self.config
    }
}

/// The slot after asking it to hold `format`: only the first setting counts.
pub open spec fn spec_init(slot: Option<OutputConfig>, format: OutputFormat) -> Option<OutputConfig> {
    match slot {
        Some(c) => Some(c),
        None => Some(OutputConfig { format }),
    }
}

/// The format in effect: the one set, else `Text`.
pub open spec fn spec_current_format(slot: Option<OutputConfig>) -> OutputFormat {
    match slot {
        Some(c) => c.format,
        None => OutputFormat::Text,
    }
}

/// Sets the output format, unless one was already set.
pub fn init(setting: &mut OutputSetting, format: OutputFormat)
    ensures
        final(setting).spec_config() == spec_init(old(setting).spec_config(), format),
{
    if setting.config.is_none() {
        setting.config = Some(OutputConfig { format });
    }
}

/// The output format in effect; `Text` until one is set.
pub fn current_format(setting: &OutputSetting) -> (f: OutputFormat)
    ensures
        f == spec_current_format(setting.spec_config()),
{
    match setting.config {
        Some(config) => config.format,
        None => OutputFormat::Text,
    }
}

/// Whether JSON output is in effect.
pub fn is_json(setting: &OutputSetting) -> (r: bool)
    ensures
        r == (spec_current_format(setting.spec_config()) == OutputFormat::Json),
{
    match current_format(setting) {
        OutputFormat::Json => true,
        OutputFormat::Text => false,
    }
}

/// The first format set stays in effect whatever is set afterwards.
pub proof fn lemma_first_init_wins(first: OutputFormat, later: OutputFormat)
    ensures
        spec_current_format(spec_init(spec_init(None, first), later)) == first,
{
}

/// Without any setting, output is text.
pub proof fn lemma_text_by_default()
    ensures
        spec_current_format(None) == OutputFormat::Text,
{
}

/// The error code for an error whose message, lower-cased, is `m`.
pub open spec fn spec_classify_message(m: Seq<char>) -> Seq<char> {
    if contains(m, "ffprobe"@) {
        "ffprobe_not_found"@
    } else if contains(m, "subtitle"@) && contains(m, "parse"@) {
        "subtitle_parse_failed"@
    } else if contains(m, "download"@) {
        "download_failed"@
    } else if contains(m, "write"@) || contains(m, "draft"@) {
        "draft_write_failed"@
    } else {
        "command_failed"@
    }
}

/// The error code for an error that carries no I/O, JSON or HTTP cause,
/// from the words of its message (ASCII letters compared without case).
pub fn classify_error_message(message: &str) -> (code: &'static str)
    ensures
        code@ == spec_classify_message(message@.map_values(|c: char| ascii_lower(c))),
{
    let raw = chars_of(message);
    let mut m: Vec<char> = Vec::new();
    let mut i: usize = 0;
    while i < raw.len()
        invariant
            i <= raw.len(),
            raw@ == message@,
            m@ =~= raw@.take(i as int).map_values(|c: char| ascii_lower(c)),
        decreases raw.len() - i,
    {
        m.push(char_ascii_lower(raw[i]));
        i += 1;
    }
    assert(raw@.take(i as int) =~= raw@);
    let has = |w: &str| -> (b: bool)
        ensures
            b == contains(m@, w@),
        {
            let wv = chars_of(w);
            find_vec(&m, &wv).is_some()
        };
    if has("ffprobe") {
        "ffprobe_not_found"
    } else if has("subtitle") && has("parse") {
        "subtitle_parse_failed"
    } else if has("download") {
        "download_failed"
    } else if has("write") || has("draft") {
        "draft_write_failed"
    } else {
        "command_failed"
    }
}

} // verus!
