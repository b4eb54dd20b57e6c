//! Opening a URL in the system browser: which program is run.
//! Spawning it is the caller's.

use vstd::prelude::*;

use crate::text::texts;

verus! {

/// The program and arguments that open `url`: `cmd /C start "" url` on
/// Windows, `xdg-open url` elsewhere.
pub fn opener_command(url: &str, windows: bool) -> (r: (String, Vec<String>))
    ensures
        windows ==> r.0@ == "cmd"@ && texts(r.1@) == seq!["/C"@, "start"@, ""@, url@],
        !windows ==> r.0@ == "xdg-open"@ && texts(r.1@) == seq![url@],
{
    let mut args: Vec<String> = Vec::new();
    if windows {
        args.push(String::from_str("/C"));
        args.push(String::from_str("start"));
        args.push(String::from_str(""));
        args.push(String::from_str(url));
        assert(texts(args@) =~= seq!["/C"@, "start"@, ""@, url@]);
        (String::from_str("cmd"), args)
    } else {
        args.push(String::from_str(url));
        assert(texts(args@) =~= seq![url@]);
        (String::from_str("xdg-open"), args)
    }
}

} // verus!
