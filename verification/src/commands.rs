//! What the commands of the program decide and compute.

use crate::manifest;
use crate::manifest::ComposerJson;
use crate::paths;
use crate::text;
use vstd::prelude::*;

pub mod audit;
pub mod bump;
pub mod check_platform;
pub mod config_cmd;
pub mod depends;
pub mod dump_autoload;
pub mod duration;
pub mod fund;
pub mod init_cmd;
pub mod install;
pub mod licenses;
pub mod outdated;
pub mod remove;
pub mod require;
pub mod run_script;
pub mod show;
pub mod status;
pub mod tree;
pub mod update;
pub mod validate;
pub mod why;

verus! {

// ---------------------------------------------------------------------------
// Messages

/// How a message is shown.
#[derive(Debug, Clone, Copy, PartialEq, Eq, Structural)]
pub enum Tone {
    Plain,
    Info,
    Success,
    Warning,
}

/// A message to the user.
#[derive(Debug, Clone)]
pub struct Message {
    pub tone: Tone,
    pub text: String,
}

impl View for Message {
    type V = (Tone, Seq<char>);

    open spec fn view(&self) -> (Tone, Seq<char>) {
        (self.tone, self.text@)
    }
}

/// What a list of messages says.
pub open spec fn said(v: Seq<Message>) -> Seq<(Tone, Seq<char>)> {
    v.map_values(|m: Message| m@)
}

/// Puts a message behind others.
pub fn say(out: &mut Vec<Message>, tone: Tone, message: String)
    ensures
        said(final(out)@) == said(old(out)@).push((tone, message@)),
{
    let ghost before = said(out@);
    out.push(Message { tone, text: message });
    assert(said(out@) =~= before.push((tone, message@)));
}

// ---------------------------------------------------------------------------
// Places

/// The `composer.json` and the `composer.lock` of the project in a directory.
pub fn project_paths(cwd: &str) -> (r: (String, String))
    ensures
        r.0@ == paths::joined_path(cwd@, "composer.json"@),
        r.1@ == paths::joined_path(cwd@, "composer.lock"@),
{
    (paths::join_path(cwd, "composer.json"), paths::join_path(cwd, "composer.lock"))
}

/// The vendor directory of the project in a directory.
pub fn vendor_dir(manifest: &ComposerJson, cwd: &str) -> (r: String)
    ensures
        r@ == paths::joined_path(cwd@, manifest::vendor_dir_of(manifest@.config)),
{
    let dir = manifest.vendor_dir();
    paths::join_path(cwd, dir.as_str())
}

/// The directory of the project that serves all projects of a user: the home of
/// Composer, the directory `composer` among the settings of the user, or one
/// below the current directory.
pub open spec fn global_home_of(home: Option<Seq<char>>, config: Option<Seq<char>>) -> Seq<char> {
    match home {
        Some(h) => h,
        None => match config {
            Some(d) => paths::joined_path(d, "composer"@),
            None => ".composer"@,
        },
    }
}

/// The directory of the project that serves all projects of a user.
pub fn global_home(home: Option<&str>, config_dir: Option<&str>) -> (r: String)
    ensures
        r@ == global_home_of(text::opt_view(home), text::opt_view(config_dir)),
{
    match home {
        Some(h) => String::from_str(h),
        None => match config_dir {
            Some(d) => paths::join_path(d, "composer"),
            None => String::from_str(".composer"),
        },
    }
}

} // verus!
