//! Where the packages for an autoloader come from.

use crate::error::Error;
use crate::lock;
use crate::lock::ComposerLock;
use crate::text;
use vstd::prelude::*;

verus! {

/// What is asked of an autoloader.
#[derive(Debug, Clone)]
pub struct DumpAutoloadArgs {
    pub optimize: bool,
    pub classmap_authoritative: bool,
    pub no_dev: bool,
    pub no_scripts: bool,
}

/// Some directory holds packages. The entries of the vendor directory come with
/// whether they are directories.
pub open spec fn holds_packages(entries: Seq<(String, bool)>) -> bool {
    exists|i: int|
        0 <= i < entries.len() && (#[trigger] entries[i]).1 && entries[i].0@ != "composer"@
            && entries[i].0@ != "bin"@
}

/// Whether some directory holds packages.
pub fn vendor_has_packages(entries: &Vec<(String, bool)>) -> (r: bool)
    ensures
        r == holds_packages(entries@),
{
    let n: usize = entries.len();
    let mut i: usize = 0;
    while i < n
        invariant
            i <= n,
            n == entries@.len(),
            forall|j: int|
                0 <= j < i ==> !((#[trigger] entries@[j]).1 && entries@[j].0@ != "composer"@
                    && entries@[j].0@ != "bin"@),
        decreases n - i,
    {
        if entries[i].1 && !text::same(entries[i].0.as_str(), "composer") && !text::same(
            entries[i].0.as_str(),
            "bin",
        ) {
            return true;
        }
        i += 1;
    }
    false
}

/// What is said when the installed packages cannot be told.
pub open spec fn refusal(installed: Seq<char>) -> Seq<char> {
    "composer.lock not found and "@ + installed
        + " is missing; refusing to rewrite autoload over an existing vendor (that would drop installed packages)"@
}

/// The packages for an autoloader: those of the lock file, or else those that are
/// installed. Without either there are none, unless some are there whose
/// description is missing. `installed` is where the description should be.
pub fn lock_for_autoload(
    lock_text: Option<&str>,
    installed_text: Option<&str>,
    installed: &str,
    vendor_entries: &Vec<(String, bool)>,
) -> (r: Result<Option<ComposerLock>, Error>)
    ensures
        match (text::opt_view(lock_text), text::opt_view(installed_text)) {
            (Some(t), _) => match lock::lock_of_text(t) {
                Ok(l) => r matches Ok(Some(x)) && x@ == l,
                Err(m) => r matches Err(Error::Lockfile(e)) && e@ == m,
            },
            (None, Some(t)) => match lock::installed_of_text(t) {
                Ok(l) => r matches Ok(Some(x)) && x@ == l,
                Err(m) => r matches Err(Error::Lockfile(e)) && e@ == m,
            },
            (None, None) => if holds_packages(vendor_entries@) {
                r matches Err(Error::Other(e)) && e@ == refusal(installed@)
            } else {
                r matches Ok(None)
            },
        },
{
    if let Some(t) = lock_text {
        return match ComposerLock::from_str(t) {
            Ok(l) => Ok(Some(l)),
            Err(e) => Err(e),
        };
    }
    if let Some(t) = installed_text {
        return match ComposerLock::from_installed_json_str(t) {
            Ok(l) => Ok(Some(l)),
            Err(e) => Err(e),
        };
    }
    if vendor_has_packages(vendor_entries) {
        return Err(
            Error::Other(
                text::cat3(
                    "composer.lock not found and ",
                    installed,
                    " is missing; refusing to rewrite autoload over an existing vendor (that would drop installed packages)",
                ),
            ),
        );
    }
    Ok(None)
}

} // verus!
