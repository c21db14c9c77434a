//! Checking requirements on the platform.

use crate::commands::Message;
use crate::commands::Tone;
use crate::error::Error;
use crate::lock;
use crate::lock::ComposerLock;
use crate::lock::LockedPackage;
use crate::manifest;
use crate::manifest::ComposerJson;
use crate::platform;
use crate::platform::Platform;
use crate::text;
use vstd::prelude::*;

verus! {

/// What is asked of a check of the platform.
#[derive(Debug, Clone)]
pub struct CheckPlatformArgs {
    pub no_dev: bool,
    /// Only locked packages are checked.
    pub lock: bool,
    /// Requirements that are not checked.
    pub ignore_platform_req: Vec<String>,
}

/// What is wrong with the requirements of the project itself.
pub open spec fn root_fault(
    p: platform::PlatformView,
    m: manifest::ManifestView,
    with_dev: bool,
    ignored: Seq<Seq<char>>,
) -> Option<Seq<char>> {
    match platform::requirements_fault(p, m.require, ignored) {
        Some(t) => Some(t),
        None => if with_dev {
            platform::requirements_fault(p, m.require_dev, ignored)
        } else {
            None
        },
    }
}

/// The first package whose requirements are not met, and what is wrong.
pub open spec fn package_fault(
    p: platform::PlatformView,
    v: Seq<lock::LockedView>,
    ignored: Seq<Seq<char>>,
) -> Option<(Seq<char>, Seq<char>)>
    decreases v.len(),
{
    if v.len() == 0 {
        None
    } else {
        match platform::requirements_fault(p, v[0].require, ignored) {
            Some(t) => Some((v[0].name, t)),
            None => package_fault(p, v.skip(1), ignored),
        }
    }
}

/// Checks the requirements of packages. An error comes with the name of the
/// package.
pub fn check_packages(platform: &Platform, packages: &Vec<&LockedPackage>, ignored: &Vec<String>) -> (r:
    Result<(), (String, Error)>)
    ensures
        match package_fault(platform@, lock::ref_views(packages@), text::texts(ignored@)) {
            None => r is Ok,
            Some((n, t)) => r matches Err((name, e)) && name@ == n && (e matches Error::Resolve(x)
                && x@ == t),
        },
{
    let ghost all = lock::ref_views(packages@);
    let ghost ign = text::texts(ignored@);
    let n: usize = packages.len();
    let mut i: usize = 0;
    assert(all.skip(0) =~= all);
    while i < n
        invariant
            i <= n,
            n == packages@.len(),
            all == lock::ref_views(packages@),
            ign == text::texts(ignored@),
            package_fault(platform@, all, ign) == package_fault(
                platform@,
                all.skip(i as int),
                ign,
            ),
        decreases n - i,
    {
        let p = packages[i];
        proof {
            assert(all.skip(i as int)[0] == p@);
            assert(all.skip(i as int).skip(1) =~= all.skip(i + 1));
        }
        if let Err(e) = platform::check_requirements_filtered(platform, &p.require, ignored) {
            return Err((String::from_str(p.name.as_str()), e));
        }
        i += 1;
    }
    Ok(())
}

/// Checks the requirements of a project and its locked packages. The error on a
/// package begins with its name.
pub fn run(
    args: &CheckPlatformArgs,
    platform: &Platform,
    manifest: &ComposerJson,
    lock: Option<&ComposerLock>,
) -> (r: Result<Message, Error>)
    ensures
        match root_fault(
            platform@,
            manifest@,
            !args.no_dev,
            text::texts(args.ignore_platform_req@),
        ) {
            Some(t) if !args.lock => r matches Err(Error::Resolve(x)) && x@ == t,
            _ => match lock_fault(
                platform@,
                lock,
                !args.no_dev,
                text::texts(args.ignore_platform_req@),
            ) {
                Some(t) => r matches Err(Error::Other(x)) && x@ == t,
                None => r is Ok && r->Ok_0@ == done_message(platform@),
            },
        },
{
    let with_dev = !args.no_dev;
    if !args.lock {
        platform::check_requirements_filtered(
            platform,
            &manifest.require,
            &args.ignore_platform_req,
        )?;
        if with_dev {
            platform::check_requirements_filtered(
                platform,
                &manifest.require_dev,
                &args.ignore_platform_req,
            )?;
        }
    }
    if let Some(l) = lock {
        let packages = l.packages_to_install(with_dev);
        if let Err((name, e)) = check_packages(platform, &packages, &args.ignore_platform_req) {
            let t = e.to_text();
            return Err(Error::Other(text::cat3(name.as_str(), ": ", t.as_str())));
        }
    }
    if platform.reliable {
        Ok(
            Message {
                tone: Tone::Success,
                text: text::cat3(
                    "Platform requirements OK (PHP ",
                    platform.php_version().as_str(),
                    ")",
                ),
            },
        )
    } else {
        Ok(
            Message {
                tone: Tone::Info,
                text: String::from_str("Platform check skipped (PHP not detected)"),
            },
        )
    }
}

/// What is wrong with the requirements of locked packages.
pub open spec fn lock_fault(
    p: platform::PlatformView,
    l: Option<&ComposerLock>,
    with_dev: bool,
    ignored: Seq<Seq<char>>,
) -> Option<Seq<char>> {
    match l {
        Some(x) => match package_fault(p, lock::to_install(x@, with_dev), ignored) {
            Some((n, t)) => Some(n + ": "@ + ("dependency resolution failed: "@ + t)),
            None => None,
        },
        None => None,
    }
}

/// What is said when nothing is wrong.
pub open spec fn done_message(p: platform::PlatformView) -> (Tone, Seq<char>) {
    if p.reliable {
        (Tone::Success, "Platform requirements OK (PHP "@ + p.php.raw + ")"@)
    } else {
        (Tone::Info, "Platform check skipped (PHP not detected)"@)
    }
}

/// What is said while the requirements of a project are checked before it is
/// installed: what is checked, and what is wrong.
pub fn check_project(
    platform: &Platform,
    manifest: &ComposerJson,
    packages: &Vec<&LockedPackage>,
    with_dev: bool,
    ignored: &Vec<String>,
) -> (r: Result<(), (String, Error)>)
    ensures
        match project_fault(
            platform@,
            manifest@,
            lock::ref_views(packages@),
            with_dev,
            text::texts(ignored@),
        ) {
            None => r is Ok,
            Some((c, t)) => r matches Err((what, e)) && what@ == c && (e matches Error::Resolve(x)
                && x@ == t),
        },
{
    if let Err(e) = platform::check_requirements_filtered(platform, &manifest.require, ignored) {
        return Err((String::from_str("platform check"), e));
    }
    if with_dev {
        if let Err(e) = platform::check_requirements_filtered(
            platform,
            &manifest.require_dev,
            ignored,
        ) {
            return Err((String::from_str("platform check (dev)"), e));
        }
    }
    match check_packages(platform, packages, ignored) {
        Ok(()) => Ok(()),
        Err((name, e)) => Err((text::cat("platform check for ", name.as_str()), e)),
    }
}

/// What was checked, and what is wrong.
pub open spec fn project_fault(
    p: platform::PlatformView,
    m: manifest::ManifestView,
    v: Seq<lock::LockedView>,
    with_dev: bool,
    ignored: Seq<Seq<char>>,
) -> Option<(Seq<char>, Seq<char>)> {
    match platform::requirements_fault(p, m.require, ignored) {
        Some(t) => Some(("platform check"@, t)),
        None => match (with_dev, platform::requirements_fault(p, m.require_dev, ignored)) {
            (true, Some(t)) => Some(("platform check (dev)"@, t)),
            _ => match package_fault(p, v, ignored) {
                Some((n, t)) => Some(("platform check for "@ + n, t)),
                None => None,
            },
        },
    }
}

/// A project passes the check if and only if the platform meets its own
/// requirements, those for development where they count, and those of every
/// package.
pub proof fn law_what_passes(
    p: platform::PlatformView,
    m: manifest::ManifestView,
    v: Seq<lock::LockedView>,
    with_dev: bool,
    ignored: Seq<Seq<char>>,
)
    ensures
        package_fault(p, v, ignored) is None <==> forall|i: int|
            0 <= i < v.len() ==> platform::requirements_fault(p, (#[trigger] v[i]).require, ignored)
                is None,
        root_fault(p, m, with_dev, ignored) is None <==> platform::requirements_fault(
            p,
            m.require,
            ignored,
        ) is None && (with_dev ==> platform::requirements_fault(p, m.require_dev, ignored) is None),
        project_fault(p, m, v, with_dev, ignored) is None <==> root_fault(p, m, with_dev, ignored)
            is None && package_fault(p, v, ignored) is None,
    decreases v.len(),
{
    if v.len() > 0 {
        let rest = v.skip(1);
        law_what_passes(p, m, rest, with_dev, ignored);
        assert forall|i: int| 0 <= i < rest.len() implies #[trigger] rest[i] == v[i + 1] by {}
        if package_fault(p, v, ignored) is None {
            assert forall|i: int| 0 <= i < v.len() implies platform::requirements_fault(
                p,
                (#[trigger] v[i]).require,
                ignored,
            ) is None by {
                if i > 0 {
                    assert(rest[i - 1] == v[i]);
                }
            }
        }
        if forall|i: int|
            0 <= i < v.len() ==> platform::requirements_fault(p, (#[trigger] v[i]).require, ignored)
                is None {
            assert(v[0] == v[0]);
            assert forall|i: int| 0 <= i < rest.len() implies platform::requirements_fault(
                p,
                (#[trigger] rest[i]).require,
                ignored,
            ) is None by {
                assert(v[i + 1] == rest[i]);
            }
        }
    }
}

} // verus!
