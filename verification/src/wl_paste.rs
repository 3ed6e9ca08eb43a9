//! The command line of the `wl-paste` compatibility wrapper.

use vstd::prelude::*;
use crate::text::{str_eq, views};

verus! {

/// What the wrapper was asked to do.
#[derive(Debug, Default, Clone)]
pub struct WlPasteArgs {
    /// `--list-types` / `-l`: print the available image MIME type.
    pub list_types: bool,
    /// `--type <mime>` / `-t <mime>`: the MIME type wanted.
    pub mime: Option<String>,
    /// `--no-newline` / `-n`.
    pub no_newline: bool,
    /// `--help` / `-h`: print the usage and stop; the arguments after it are
    /// not read.
    pub help: bool,
}

/// What `parse_args` gives for `raw`: (list types, MIME type, no newline,
/// help), or the error text.
pub open spec fn spec_parse(raw: Seq<Seq<char>>) -> Result<(bool, Option<Seq<char>>, bool, bool), Seq<char>> {
    parse_steps(raw, 0, (false, None, false, false))
}

/// `parse_args` from position `i` on, with the flags so far:
/// (list types, MIME type, no newline, help).
pub open spec fn parse_steps(
    raw: Seq<Seq<char>>,
    i: int,
    st: (bool, Option<Seq<char>>, bool, bool),
) -> Result<(bool, Option<Seq<char>>, bool, bool), Seq<char>>
    decreases raw.len() - i,
{
    if i < 0 || i >= raw.len() {
        Ok(st)
    } else {
        let a = raw[i];
        if a == "--list-types"@ || a == "-l"@ {
            parse_steps(raw, i + 1, (true, st.1, st.2, st.3))
        } else if a == "--no-newline"@ || a == "-n"@ {
            parse_steps(raw, i + 1, (st.0, st.1, true, st.3))
        } else if a == "--type"@ || a == "-t"@ {
            if i + 1 < raw.len() {
                parse_steps(raw, i + 2, (st.0, Some(raw[i + 1]), st.2, st.3))
            } else {
                Err(a + " expects a value"@)
            }
        } else if a == "--help"@ || a == "-h"@ {
            Ok((st.0, st.1, st.2, true))
        } else {
            Err("unsupported argument: "@ + a)
        }
    }
}

/// The flags of parsed arguments, the MIME type by its characters.
pub open spec fn flags_of(a: WlPasteArgs) -> (bool, Option<Seq<char>>, bool, bool) {
    (
        a.list_types,
        match a.mime {
            Some(m) => Some(m@),
            None => None,
        },
        a.no_newline,
        a.help,
    )
}

/// Read the wrapper's arguments (see `parse_steps`).
pub fn parse_args(raw: &Vec<String>) -> (r: Result<WlPasteArgs, String>)
    ensures
        match r {
            Ok(a) => spec_parse(views(raw@)) == Ok::<(bool, Option<Seq<char>>, bool, bool), Seq<char>>(flags_of(a)),
            Err(e) => spec_parse(views(raw@)) == Err::<(bool, Option<Seq<char>>, bool, bool), Seq<char>>(e@),
        },
{
    let ghost rv = views(raw@);
    let mut out = WlPasteArgs { list_types: false, mime: None, no_newline: false, help: false };
    let mut i: usize = 0;
    while i < raw.len()
        invariant
            i <= raw@.len(),
            rv == views(raw@),
            spec_parse(rv) == parse_steps(rv, i as int, flags_of(out)),
            !out.help,
        decreases raw.len() - i,
    {
        let a = raw[i].as_str();
        if str_eq(a, "--list-types") || str_eq(a, "-l") {
            out.list_types = true;
            i = i + 1;
        } else if str_eq(a, "--no-newline") || str_eq(a, "-n") {
            out.no_newline = true;
            i = i + 1;
        } else if str_eq(a, "--type") || str_eq(a, "-t") {
            if i + 1 >= raw.len() {
                let mut e = a.to_string();
                e.append(" expects a value");
                return Err(e);
            }
            out.mime = Some(raw[i + 1].clone());
            i = i + 2;
        } else if str_eq(a, "--help") || str_eq(a, "-h") {
            out.help = true;
            return Ok(out);
        } else {
            let mut e = String::from_str("unsupported argument: ");
            e.append(a);
            return Err(e);
        }
    }
    Ok(out)
}

/// The usage text.
pub fn usage() -> (r: String)
    ensures
        r@ == "Usage: wl-paste [--list-types] [--type <mime>] [--no-newline]"@,
{
    String::from_str("Usage: wl-paste [--list-types] [--type <mime>] [--no-newline]")
}

} // verus!
