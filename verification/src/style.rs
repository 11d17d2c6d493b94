//! ANSI colour and emphasis for the human scan output.
//!
//! Every helper takes an explicit `enabled` flag; the caller decides it once
//! from the stream (a terminal, and `NO_COLOR` unset).

use vstd::prelude::*;

use crate::text::{all_ascii, ascii_lower, ascii_upper, pad_right, pad_right_spec, str_eq, to_ascii_lowercase, to_uppercase, unicode_upper};

verus! {

/// Visible width every leading `[TAG]` is padded to, so the target column
/// lines up across findings (`[CRITICAL]`) and status rows (`[OK]`).
pub const TAG_WIDTH: usize = 10;

/// The SGR reset sequence.
pub const RESET: &'static str = "\x1b[0m";

/// Colour iff the stream is a terminal and `NO_COLOR` is unset (any value of
/// `NO_COLOR`, even empty, disables colour).
pub fn detect(no_color_set: bool, stream_is_terminal: bool) -> (b: bool)
    ensures
        b == (!no_color_set && stream_is_terminal),
{
    if no_color_set {
        return false;
    }
    stream_is_terminal
}

/// `text` wrapped in the SGR sequence `code` when `enabled`.
pub open spec fn paint_spec(enabled: bool, code: Seq<char>, text: Seq<char>) -> Seq<char> {
    if enabled {
        "\x1b["@ + code + "m"@ + text + "\x1b[0m"@
    } else {
        text
    }
}

/// Wrap `text` in an SGR sequence when `enabled`, otherwise return it as-is.
pub fn paint(enabled: bool, code: &str, text: &str) -> (r: String)
    ensures
        r@ == paint_spec(enabled, code@, text@),
{
    if enabled {
        let mut s = String::new();
        s.append("\x1b[");
        s.append(code);
        s.append("m");
        s.append(text);
        s.append(RESET);
        s
    } else {
        text.to_owned()
    }
}

/// Left-pad the plain `[TAG]` to [`TAG_WIDTH`] characters before colouring,
/// so the invisible escape bytes never throw the column alignment off.
pub fn tag(label: &str) -> (r: String)
    ensures
        r@ == pad_right_spec(label@, TAG_WIDTH as nat),
{
    pad_right(label, TAG_WIDTH)
}

/// SGR code for a severity word (ASCII case-insensitive).
pub open spec fn severity_code_spec(severity: Seq<char>) -> Seq<char> {
    let l = severity.map_values(|c: char| ascii_lower(c));
    if l == "critical"@ {
        "1;95"@
    } else if l == "high"@ {
        "1;31"@
    } else if l == "medium"@ {
        "33"@
    } else if l == "low"@ {
        "36"@
    } else if l == "info"@ {
        "90"@
    } else {
        "0"@
    }
}

/// SGR code for a severity word: critical bold bright magenta, high bold red,
/// medium yellow, low cyan, info grey, anything else plain.
pub fn severity_code(severity: &str) -> (r: &'static str)
    ensures
        r@ == severity_code_spec(severity@),
{
    let lowered = to_ascii_lowercase(severity);
    let l = lowered.as_str();
    if str_eq(l, "critical") {
        "1;95"
    } else if str_eq(l, "high") {
        "1;31"
    } else if str_eq(l, "medium") {
        "33"
    } else if str_eq(l, "low") {
        "36"
    } else if str_eq(l, "info") {
        "90"
    } else {
        "0"
    }
}

/// `[` + `s` + `]`.
pub open spec fn bracketed(s: Seq<char>) -> Seq<char> {
    "["@ + s + "]"@
}

fn bracket(s: &str) -> (r: String)
    ensures
        r@ == bracketed(s@),
{
    let mut out = String::new();
    out.append("[");
    out.append(s);
    out.append("]");
    out
}

/// `[SEVERITY]` tag, colour-coded by level and padded to the tag column.
pub fn severity_tag(enabled: bool, severity: &str) -> (r: String)
    ensures
        r@ == paint_spec(
            enabled,
            severity_code_spec(severity@),
            pad_right_spec(bracketed(unicode_upper(severity@)), TAG_WIDTH as nat),
        ),
        all_ascii(severity@) ==> r@ == paint_spec(
            enabled,
            severity_code_spec(severity@),
            pad_right_spec(bracketed(severity@.map_values(|c: char| ascii_upper(c))), TAG_WIDTH as nat),
        ),
{
    let upper = to_uppercase(severity);
    let label = tag(bracket(upper.as_str()).as_str());
    paint(enabled, severity_code(severity), label.as_str())
}

/// SGR code for a status word: OK green, SKIP yellow, ERROR red.
pub open spec fn status_code_spec(status: Seq<char>) -> Seq<char> {
    if status == "OK"@ {
        "32"@
    } else if status == "SKIP"@ {
        "33"@
    } else if status == "ERROR"@ {
        "31"@
    } else {
        "0"@
    }
}

/// `[OK]` / `[SKIP]` / `[ERROR]` status tag, colour-coded and padded.
pub fn status_tag(enabled: bool, status: &str) -> (r: String)
    ensures
        r@ == paint_spec(enabled, status_code_spec(status@), pad_right_spec(bracketed(status@), TAG_WIDTH as nat)),
{
    let code = if str_eq(status, "OK") {
        "32"
    } else if str_eq(status, "SKIP") {
        "33"
    } else if str_eq(status, "ERROR") {
        "31"
    } else {
        "0"
    };
    let label = tag(bracket(status).as_str());
    paint(enabled, code, label.as_str())
}

/// Emphasise the scan target (bold).
pub fn target(enabled: bool, text: &str) -> (r: String)
    ensures
        r@ == paint_spec(enabled, "1"@, text@),
{
    paint(enabled, "1", text)
}

/// De-emphasise secondary text — script label, skip/error reason.
pub fn dim(enabled: bool, text: &str) -> (r: String)
    ensures
        r@ == paint_spec(enabled, "2"@, text@),
{
    paint(enabled, "2", text)
}

/// Bold a heading (the multi-run summary title).
pub fn heading(enabled: bool, text: &str) -> (r: String)
    ensures
        r@ == paint_spec(enabled, "1"@, text@),
{
    paint(enabled, "1", text)
}

/// Red highlight for a non-zero detected/failed count in the summary.
pub fn alert(enabled: bool, text: &str) -> (r: String)
    ensures
        r@ == paint_spec(enabled, "31"@, text@),
{
    paint(enabled, "31", text)
}

/// Yellow highlight (e.g. a non-zero skipped count).
pub fn caution(enabled: bool, text: &str) -> (r: String)
    ensures
        r@ == paint_spec(enabled, "33"@, text@),
{
    paint(enabled, "33", text)
}

/// Green highlight (e.g. a non-zero clean count).
pub fn good(enabled: bool, text: &str) -> (r: String)
    ensures
        r@ == paint_spec(enabled, "32"@, text@),
{
    paint(enabled, "32", text)
}

/// `[WARNING]` tag for stderr advisories (bold yellow).
pub fn warn_tag(enabled: bool) -> (r: String)
    ensures
        r@ == paint_spec(enabled, "1;33"@, "[WARNING]"@),
{
    paint(enabled, "1;33", "[WARNING]")
}

/// `[ERROR]` tag for stderr failures (bold red).
pub fn error_tag(enabled: bool) -> (r: String)
    ensures
        r@ == paint_spec(enabled, "1;31"@, "[ERROR]"@),
{
    paint(enabled, "1;31", "[ERROR]")
}

} // verus!
