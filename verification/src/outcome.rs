//! What a finished sidecar process hands back, and how its reply line is taken
//! from it: a failed exit is reported with the trimmed error output, an empty
//! reply is refused, and otherwise the trimmed output is the reply.
use vstd::prelude::*;
use vstd::string::*;

use crate::text::{chars_of, string_of, trim, trim_chars};

verus! {

/// The observable result of one sidecar run.
#[derive(Debug, Clone, PartialEq, Eq)]
pub struct SidecarOutput {
    /// Whether the process exited successfully.
    pub success: bool,
    /// How the exit status displays (e.g. `exit code: 1`).
    pub status: String,
    /// The process's error output, decoded lossily.
    pub stderr: String,
    /// The process's standard output, decoded lossily.
    pub stdout: String,
}

/// The reply line of a sidecar run, or the message describing why there is none.
/// `label` names the sidecar in messages; `empty_note` follows the empty-output
/// message.
pub open spec fn reply_line(o: SidecarOutput, label: Seq<char>, empty_note: Seq<char>) -> Result<
    Seq<char>,
    Seq<char>,
> {
    if !o.success {
        Err(label + " exited with "@ + o.status@ + ": "@ + trim(o.stderr@))
    } else if trim(o.stdout@).len() == 0 {
        Err(label + " produced empty stdout"@ + empty_note)
    } else {
        Ok(trim(o.stdout@))
    }
}

impl SidecarOutput {
    /// The reply line of this run (see [`reply_line`]).
    pub fn reply(&self, label: &str, empty_note: &str) -> (r: Result<String, String>)
        ensures
            match reply_line(*self, label@, empty_note@) {
                Ok(l) => r matches Ok(s) && s@ == l,
                Err(m) => r matches Err(s) && s@ == m,
            },
    {
        if !self.success {
            let mut m = String::from_str(label);
            m.append(" exited with ");
            m.append(self.status.as_str());
            m.append(": ");
            let t = string_of(&trim_chars(&chars_of(self.stderr.as_str())));
            m.append(t.as_str());
            return Err(m);
        }
        let line = trim_chars(&chars_of(self.stdout.as_str()));
        if line.len() == 0 {
            let mut m = String::from_str(label);
            m.append(" produced empty stdout");
            m.append(empty_note);
            return Err(m);
        }
        Ok(string_of(&line))
    }
}

/// The sidecar script to run: a non-empty override, else the given path.
pub open spec fn chosen_sidecar(path: Seq<char>, over: Option<Seq<char>>) -> Seq<char> {
    match over {
        Some(p) => if p.len() > 0 {
            p
        } else {
            path
        },
        None => path,
    }
}

/// The `node` binary to run: the override when there is one.
pub open spec fn chosen_node(over: Option<Seq<char>>) -> Seq<char> {
    match over {
        Some(n) => n,
        None => "node"@,
    }
}

/// The script and `node` binary of a sidecar run: `script_override` when it
/// is non-empty, else `default_script`; `node_override` when given, else `node`.
/// The overrides are what the environment names.
pub fn sidecar_command(default_script: String, script_override: Option<String>, node_override: Option<String>) -> (r: (String, String))
    ensures
        r.0@ == chosen_sidecar(default_script@, crate::bench::opt_view(script_override)),
        r.1@ == chosen_node(crate::bench::opt_view(node_override)),
{
    let script = match script_override {
        Some(p) => if p.unicode_len() > 0 {
            p
        } else {
            default_script
        },
        None => default_script,
    };
    let node_bin = match node_override {
        Some(n) => n,
        None => String::from_str("node"),
    };
    (script, node_bin)
}

/// The answer to a batch of `count` items that needs no sidecar process: an
/// empty batch is answered at once with an empty result, and only a non-empty
/// batch is handed to a process.
pub fn answer_without_process<T>(count: usize) -> (r: Option<Vec<T>>)
    ensures
        r is Some <==> count == 0,
        r is Some ==> r->0@.len() == 0,
{
    if count == 0 {
        Some(Vec::new())
    } else {
        None
    }
}

} // verus!
