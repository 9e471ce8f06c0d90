//! The decisions of `system update` and `system info`: which build fits this
//! machine, which release to fetch and which of its files to install.
use vstd::prelude::*;
use crate::error::{config_error, DbtpError};
use crate::text::{is_prefix, join_v, texts_v, join2, join3, join_texts, owned, str_eq, str_starts_with};

verus! {

/// The repository that releases are fetched from.
pub const REPO: &'static str = "trouze/dbtp";

/// The build target for an operating system and architecture, as
/// `std::env::consts` names them; `None` for an unsupported platform.
pub open spec fn target_v(os: Seq<char>, arch: Seq<char>) -> Option<Seq<char>> {
    if os == "macos"@ && arch == "aarch64"@ {
        Some("aarch64-apple-darwin"@)
    } else if os == "macos"@ && arch == "x86_64"@ {
        Some("x86_64-apple-darwin"@)
    } else if os == "linux"@ && arch == "x86_64"@ {
        Some("x86_64-unknown-linux-gnu"@)
    } else if os == "linux"@ && arch == "aarch64"@ {
        Some("aarch64-unknown-linux-gnu"@)
    } else {
        None
    }
}

/// The build target for this platform, or the error that names an
/// unsupported one.
pub fn detect_target(os: &str, arch: &str) -> (r: Result<String, DbtpError>)
    ensures
        r is Ok <==> target_v(os@, arch@) is Some,
        r matches Ok(t) ==> target_v(os@, arch@) == Some(t@),
        r matches Err(e) ==> config_error(e, "Unsupported platform: "@ + os@ + "/"@ + arch@),
{
    if str_eq(os, "macos") && str_eq(arch, "aarch64") {
        Ok(owned("aarch64-apple-darwin"))
    } else if str_eq(os, "macos") && str_eq(arch, "x86_64") {
        Ok(owned("x86_64-apple-darwin"))
    } else if str_eq(os, "linux") && str_eq(arch, "x86_64") {
        Ok(owned("x86_64-unknown-linux-gnu"))
    } else if str_eq(os, "linux") && str_eq(arch, "aarch64") {
        Ok(owned("aarch64-unknown-linux-gnu"))
    } else {
        let m = join3("Unsupported platform: ", os, "/");
        Err(DbtpError::Config(join2(m.as_str(), arch)))
    }
}

/// A pinned version as a release tag: with a leading `v`.
pub open spec fn release_tag_v(v: Seq<char>) -> Seq<char> {
    if is_prefix("v"@, v) {
        v
    } else {
        "v"@ + v
    }
}

/// The release tag of a pinned version.
pub fn release_tag(v: &str) -> (r: String)
    ensures
        r@ == release_tag_v(v@),
{
    if str_starts_with(v, "v") {
        owned(v)
    } else {
        join2("v", v)
    }
}

/// The GitHub API address of the release to install: the pinned one, or the
/// latest.
pub open spec fn release_url_v(pin: Option<Seq<char>>) -> Seq<char> {
    match pin {
        Some(v) => "https://api.github.com/repos/"@ + REPO@ + "/releases/tags/"@ + release_tag_v(v),
        None => "https://api.github.com/repos/"@ + REPO@ + "/releases/latest"@,
    }
}

/// The address of the release to install.
pub fn release_url(pin: Option<&str>) -> (r: String)
    ensures
        r@ == release_url_v(match pin { Some(v) => Some(v@), None => None }),
{
    let base = join3("https://api.github.com/repos/", REPO, "/releases/");
    match pin {
        Some(v) => {
            let tag = release_tag(v);
            let t = join2("tags/", tag.as_str());
            let r = join2(base.as_str(), t.as_str());
            proof {
                reveal_strlit("/releases/");
                reveal_strlit("tags/");
                reveal_strlit("/releases/tags/");
                assert(base@ + t@ =~= "https://api.github.com/repos/"@ + REPO@ + "/releases/tags/"@ + tag@);
            }
            r
        },
        None => {
            let r = join2(base.as_str(), "latest");
            proof {
                reveal_strlit("/releases/");
                reveal_strlit("latest");
                reveal_strlit("/releases/latest");
                assert(base@ + "latest"@ =~= "https://api.github.com/repos/"@ + REPO@ + "/releases/latest"@);
            }
            r
        },
    }
}

/// Nothing is installed when the latest release is the running version and
/// no version was pinned.
pub open spec fn up_to_date_v(latest: Seq<char>, current_version: Seq<char>, pinned: bool) -> bool {
    latest == "v"@ + current_version && !pinned
}

/// `true` when the running version is the latest release and none was pinned.
pub fn is_up_to_date(latest: &str, current_version: &str, pinned: bool) -> (r: bool)
    ensures
        r == up_to_date_v(latest@, current_version@, pinned),
{
    let current_tag = join2("v", current_version);
    str_eq(latest, current_tag.as_str()) && !pinned
}

/// The name of the release file built for a target.
pub open spec fn asset_name_v(tag: Seq<char>, target: Seq<char>) -> Seq<char> {
    "dbtp-"@ + tag + "-"@ + target + ".tar.gz"@
}

/// The release file to install: the first whose name is the one built for
/// the target, or the error that lists what the release has.
pub fn pick_asset(names: &Vec<String>, tag: &str, target: &str) -> (r: Result<usize, DbtpError>)
    ensures
        r matches Ok(i) ==> i < names@.len() && names@[i as int]@ == asset_name_v(tag@, target@)
            && forall|k: int| 0 <= k < i ==> (#[trigger] names@[k])@ != asset_name_v(tag@, target@),
        r is Err <==> forall|k: int| 0 <= k < names@.len() ==> (#[trigger] names@[k])@ != asset_name_v(tag@, target@),
        r matches Err(e) ==> config_error(e, "No binary found for "@ + target@ + " in release "@ + tag@
            + ". Available: "@ + join_v(texts_v(names@), ", "@)),
{
    let a = join3("dbtp-", tag, "-");
    let expected = join3(a.as_str(), target, ".tar.gz");
    let mut i: usize = 0;
    while i < names.len()
        invariant
            i <= names@.len(),
            expected@ == asset_name_v(tag@, target@),
            forall|k: int| 0 <= k < i ==> (#[trigger] names@[k])@ != asset_name_v(tag@, target@),
        decreases names@.len() - i,
    {
        if str_eq(names[i].as_str(), expected.as_str()) {
            return Ok(i);
        }
        i += 1;
    }
    let listed = join_texts(names, ", ");
    let m1 = join3("No binary found for ", target, " in release ");
    let m2 = join3(m1.as_str(), tag, ". Available: ");
    Err(DbtpError::Config(join2(m2.as_str(), listed.as_str())))
}

/// A release tag always starts with `v`, and a tag stays as it is.
pub proof fn law_release_tag(v: Seq<char>)
    ensures
        is_prefix("v"@, release_tag_v(v)),
        release_tag_v(release_tag_v(v)) == release_tag_v(v),
        is_prefix("v"@, v) ==> release_tag_v(v) == v,
{
    if !is_prefix("v"@, v) {
        assert(("v"@ + v).subrange(0, "v"@.len() as int) =~= "v"@);
    }
}

} // verus!
