//! Reading and changing the settings of a project.

use crate::error::Error;
use crate::json;
use crate::json::Json;
use crate::manifest;
use crate::manifest::ComposerJson;
use crate::text;
use vstd::prelude::*;

verus! {

/// What is asked of the settings.
#[derive(Debug, Clone)]
pub struct ConfigArgs {
    pub list: bool,
    pub global: bool,
    /// Where credentials are.
    pub auth: bool,
    pub unset: bool,
    pub key: Option<String>,
    pub value: Option<String>,
}

/// What is done with the settings.
#[derive(Debug, Clone)]
pub enum ConfigAction {
    ShowAuth,
    ShowGlobal,
    List,
    Clear(String),
    Assign(String, String),
    Read(String),
}

/// What is done with the settings.
pub enum ActionView {
    ShowAuth,
    ShowGlobal,
    List,
    Clear(Seq<char>),
    Assign(Seq<char>, Seq<char>),
    Read(Seq<char>),
    /// There is nothing to do.
    Nothing,
}

/// What is done with the settings.
pub open spec fn action_of(args: ConfigArgs) -> ActionView {
    if args.auth {
        ActionView::ShowAuth
    } else if args.global {
        ActionView::ShowGlobal
    } else if args.list {
        ActionView::List
    } else {
        match args.key {
            None => ActionView::Nothing,
            Some(k) => if args.unset {
                ActionView::Clear(k@)
            } else {
                match args.value {
                    Some(v) => ActionView::Assign(k@, v@),
                    None => ActionView::Read(k@),
                }
            },
        }
    }
}

/// What is done with the settings.
pub fn config_action(args: &ConfigArgs) -> (r: Result<ConfigAction, Error>)
    ensures
        match action_of(*args) {
            ActionView::ShowAuth => r matches Ok(ConfigAction::ShowAuth),
            ActionView::ShowGlobal => r matches Ok(ConfigAction::ShowGlobal),
            ActionView::List => r matches Ok(ConfigAction::List),
            ActionView::Clear(k) => r matches Ok(ConfigAction::Clear(x)) && x@ == k,
            ActionView::Assign(k, v) => r matches Ok(ConfigAction::Assign(x, y)) && x@ == k && y@ == v,
            ActionView::Read(k) => r matches Ok(ConfigAction::Read(x)) && x@ == k,
            ActionView::Nothing => r matches Err(Error::Other(t)) && t@
                == "provide a config key or --list"@,
        },
{
    if args.auth {
        return Ok(ConfigAction::ShowAuth);
    }
    if args.global {
        return Ok(ConfigAction::ShowGlobal);
    }
    if args.list {
        return Ok(ConfigAction::List);
    }
    let key = match &args.key {
        Some(k) => String::from_str(k.as_str()),
        None => return Err(Error::Other(String::from_str("provide a config key or --list"))),
    };
    if args.unset {
        return Ok(ConfigAction::Clear(key));
    }
    match &args.value {
        Some(v) => Ok(ConfigAction::Assign(key, String::from_str(v.as_str()))),
        None => Ok(ConfigAction::Read(key)),
    }
}

/// The value that a text stands for: what it tells as JSON, or the text itself.
pub open spec fn value_of(s: Seq<char>) -> json::JsonView {
    match json::json_of_bytes(vstd::utf8::encode_utf8(s)) {
        Some(j) => j,
        None => json::JsonView::Str(s),
    }
}

/// The value that a parsed text stands for.
pub fn value_or_text(parsed: Option<Json>, s: &str) -> (r: Json)
    ensures
        r@ == match json::opt_json(parsed) {
            Some(j) => j,
            None => json::JsonView::Str(s@),
        },
{
    match parsed {
        Some(j) => j,
        None => Json::Str(String::from_str(s)),
    }
}

/// Gives a setting the value that a text stands for.
pub fn set_value(manifest: &mut ComposerJson, key: &str, value: &str)
    ensures
        final(manifest)@.config == Some(
            manifest::with_path(old(manifest)@.config, text::pieces(key@, "."@), value_of(value@)),
        ),
        *final(manifest) == (ComposerJson { config: final(manifest).config, ..*old(manifest) }),
{
    let parsed = json::parse(value.as_bytes());
    let v = value_or_text(parsed, value);
    manifest.config_set(key, v);
}

/// The value of a setting. The directories of packages and binaries always have
/// one.
pub open spec fn setting_of(config: Option<json::JsonView>, key: Seq<char>) -> Option<
    json::JsonView,
> {
    if key == "vendor-dir"@ {
        Some(json::JsonView::Str(manifest::vendor_dir_of(config)))
    } else if key == "bin-dir"@ {
        Some(json::JsonView::Str(manifest::bin_dir_of(config)))
    } else {
        match config {
            Some(c) => manifest::at_path(c, text::pieces(key, "."@)),
            None => None,
        }
    }
}

/// The value of a setting.
pub fn get_value(manifest: &ComposerJson, key: &str) -> (r: Result<Json, Error>)
    ensures
        match setting_of(manifest@.config, key@) {
            Some(v) => r is Ok && r->Ok_0@ == v,
            None => r matches Err(Error::Other(t)) && t@ == "config key `"@ + key@
                + "` is not set"@,
        },
{
    if text::same(key, "vendor-dir") {
        return Ok(Json::Str(manifest.vendor_dir()));
    }
    if text::same(key, "bin-dir") {
        return Ok(Json::Str(manifest.bin_dir()));
    }
    match manifest.config_get(key) {
        Some(v) => Ok(v),
        None => Err(Error::Other(text::cat3("config key `", key, "` is not set"))),
    }
}

/// What is done: what only shows comes first, a key is taken away before it is
/// set, and set before it is read.
pub proof fn law_what_is_done(args: ConfigArgs)
    ensures
        args.auth ==> action_of(args) == ActionView::ShowAuth,
        !args.auth && args.global ==> action_of(args) == ActionView::ShowGlobal,
        !args.auth && !args.global && args.list ==> action_of(args) == ActionView::List,
        (!args.auth && !args.global && !args.list) ==> {
            &&& args.key is None ==> action_of(args) == ActionView::Nothing
            &&& args.key is Some && args.unset ==> action_of(args) == ActionView::Clear(
                args.key->0@,
            )
            &&& args.key is Some && !args.unset && args.value is Some ==> action_of(args)
                == ActionView::Assign(args.key->0@, args.value->0@)
            &&& args.key is Some && !args.unset && args.value is None ==> action_of(args)
                == ActionView::Read(args.key->0@)
        },
{
}

/// A key of one word is read from the settings; the directories have values
/// without a setting too.
pub proof fn law_what_is_read(m: Seq<(Seq<char>, json::JsonView)>, key: Seq<char>)
    requires
        !key.contains('.'),
    ensures
        (key != "vendor-dir"@ && key != "bin-dir"@) ==> setting_of(
            Some(json::JsonView::Object(m)),
            key,
        ) == json::member(m, key),
        (key != "vendor-dir"@ && key != "bin-dir"@) ==> setting_of(None, key) is None,
        setting_of(None, "vendor-dir"@) == Some(json::JsonView::Str("vendor"@)),
        setting_of(None, "bin-dir"@) == Some(json::JsonView::Str("vendor"@ + "/bin"@)),
{
    reveal_strlit(".");
    reveal_strlit("vendor-dir");
    reveal_strlit("bin-dir");
    assert("vendor-dir"@.len() == 10 && "bin-dir"@.len() == 7);
    text::lemma_not_found(key, "."@);
    assert(text::pieces(key, "."@)[0] == key);
    assert(text::pieces(key, "."@).skip(1).len() == 0);
    reveal_with_fuel(manifest::at_path, 2);
}

} // verus!
