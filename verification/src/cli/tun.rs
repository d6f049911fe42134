//! How outbound traffic of a local process is intercepted.
use vstd::prelude::*;
use vstd::string::*;

use crate::cli::gcloud::{quote, quoted, CliError};
use crate::text::{
    chars_of, concat, lower_chars, lower_text, same_text, string_of, trim, trim_chars,
};

verus! {

/// How outbound traffic is intercepted.
#[derive(Debug, Clone, Copy, PartialEq, Eq, Structural)]
pub enum InterceptMode {
    /// By a library that is loaded first.
    Preload,
    /// By a network device, which covers statically linked programs too.
    Tun,
}

impl Default for InterceptMode {
    fn default() -> (r: Self)
        ensures
            r == InterceptMode::Preload,
    {
        InterceptMode::Preload
    }
}

/// The mode of a name, in lower case and without white space around it.
pub open spec fn mode_named(name: Seq<char>) -> Option<InterceptMode> {
    if name == "preload"@ || name == "ld-preload"@ || name == "ld_preload"@ {
        Some(InterceptMode::Preload)
    } else if name == "tun"@ || name == "tun-tap"@ || name == "tuntap"@ {
        Some(InterceptMode::Tun)
    } else {
        None
    }
}

impl InterceptMode {
    /// Find the mode of a name, in any case and with any white space around it.
    pub fn from_str(s: &str) -> (r: Result<Self, CliError>)
        ensures
            match mode_named(lower_text(trim(s@))) {
                Some(mode) => r == Ok::<InterceptMode, CliError>(mode),
                None => r matches Err(e) && e.says(
                    "unknown --mode "@ + quoted(lower_text(trim(s@)))
                        + ": expected 'preload' or 'tun'"@,
                    None,
                ),
            },
    {
        let name = string_of(lower_chars(trim_chars(chars_of(s).as_slice())).as_slice());
        let name = name.as_str();
        if same_text(name, "preload") || same_text(name, "ld-preload") || same_text(
            name,
            "ld_preload",
        ) {
            Ok(InterceptMode::Preload)
        } else if same_text(name, "tun") || same_text(name, "tun-tap") || same_text(
            name,
            "tuntap",
        ) {
            Ok(InterceptMode::Tun)
        } else {
            let message = concat(
                concat("unknown --mode ", quote(name).as_str()).as_str(),
                ": expected 'preload' or 'tun'",
            );
            Err(CliError::new(message))
        }
    }
}

/// Check that the system can intercept by a network device.
pub fn ensure_supported(os: &str) -> (r: Result<(), CliError>)
    ensures
        if os@ == "linux"@ || os@ == "macos"@ {
            r is Ok
        } else {
            r matches Err(e) && e.says("TUN mode is only supported on Linux and macOS"@, None)
        },
{
    if same_text(os, "linux") || same_text(os, "macos") {
        Ok(())
    } else {
        Err(CliError::new("TUN mode is only supported on Linux and macOS".to_string()))
    }
}

// ── Laws ──────────────────────────────────────────────────────────────────────

/// Each mode has its names, and no other name leads to one.
pub proof fn modes_have_their_names(name: Seq<char>)
    ensures
        mode_named("preload"@) == Some(InterceptMode::Preload),
        mode_named("ld-preload"@) == Some(InterceptMode::Preload),
        mode_named("ld_preload"@) == Some(InterceptMode::Preload),
        mode_named("tun"@) == Some(InterceptMode::Tun),
        mode_named("tun-tap"@) == Some(InterceptMode::Tun),
        mode_named("tuntap"@) == Some(InterceptMode::Tun),
        mode_named(name) is Some ==> name == "preload"@ || name == "ld-preload"@ || name
            == "ld_preload"@ || name == "tun"@ || name == "tun-tap"@ || name == "tuntap"@,
{
    reveal_strlit("preload");
    reveal_strlit("ld-preload");
    reveal_strlit("ld_preload");
    reveal_strlit("tun");
    reveal_strlit("tun-tap");
    reveal_strlit("tuntap");
    assert("preload"@[0] == 'p' && "tun-tap"@[0] == 't');
    assert("tun"@.len() == 3 && "tuntap"@.len() == 6 && "preload"@.len() == 7 && "ld-preload"@.len()
        == 10 && "ld_preload"@.len() == 10 && "tun-tap"@.len() == 7);
}

} // verus!
