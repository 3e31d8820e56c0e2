//! Locating the data directory.
//!
//! Transcripts live at `<config dir>/projects/<project-slug>/<sessionId>.jsonl` with subagent
//! transcripts at `<sessionId>/subagents/agent-*.jsonl`. The default config dir is a hidden
//! directory in the home directory, named after the product; the environment variable
//! [`CONFIG_VAR`](crate::product::CONFIG_VAR) relocates it.
//!
//! What the environment holds comes as values of any type `B`, and a place is a base with
//! names to be joined to it one after another.

use vstd::prelude::*;

use crate::product;
use crate::text::texts;

verus! {

/// A directory or file: `names` joined to `base` one after another.
#[derive(Debug, Clone, PartialEq, Eq)]
pub struct Place<B> {
    pub base: B,
    pub names: Vec<String>,
}

/// What the environment says of directories.
#[derive(Debug, Clone, PartialEq, Eq)]
pub struct Environment<B> {
    /// `USERPROFILE`
    pub userprofile: Option<B>,
    /// `HOME`
    pub home: Option<B>,
    /// `CLAUDE_CONFIG_DIR`
    pub config_dir: Option<B>,
    /// Whether `CLAUDE_CONFIG_DIR` is set to nothing
    pub config_dir_empty: bool,
    /// `APPDATA`
    pub appdata: Option<B>,
}

/// What a [`Place`] says.
#[verifier::ext_equal]
pub struct PlaceView<B> {
    pub base: B,
    pub names: Seq<Seq<char>>,
}

impl<B> View for Place<B> {
    type V = PlaceView<B>;

    open spec fn view(&self) -> PlaceView<B> {
        PlaceView { base: self.base, names: texts(self.names@) }
    }
}

/// The view of an optional place.
pub open spec fn opt_place<B>(p: Option<Place<B>>) -> Option<PlaceView<B>> {
    match p {
        Some(p) => Some(p@),
        None => None,
    }
}

/// The home directory: `USERPROFILE`, or else `HOME`.
pub open spec fn home<B>(env: Environment<B>) -> Option<B> {
    if env.userprofile is Some {
        env.userprofile
    } else {
        env.home
    }
}

/// The name of the config directory in the home directory.
pub open spec fn hidden_dir() -> Seq<char> {
    "."@ + product::small()
}

/// The config directory: where the environment puts it (unless that is empty), or else
/// the hidden directory of the product in the home directory.
pub open spec fn config_place<B>(env: Environment<B>) -> Option<PlaceView<B>> {
    if env.config_dir is Some && !env.config_dir_empty {
        Some(PlaceView { base: env.config_dir->0, names: Seq::empty() })
    } else if home(env) is Some {
        Some(PlaceView { base: home(env)->0, names: seq![hidden_dir()] })
    } else {
        None
    }
}

/// A name in a place.
pub open spec fn below<B>(place: Option<PlaceView<B>>, name: Seq<char>) -> Option<PlaceView<B>> {
    match place {
        Some(p) => Some(PlaceView { base: p.base, names: p.names.push(name) }),
        None => None,
    }
}

impl<B> Place<B> {
    /// A name in this place.
    pub fn join(self, name: &str) -> (r: Place<B>)
        ensures
            r@ == (PlaceView { base: self.base, names: self@.names.push(name@) }),
    {
        let mut names = self.names;
        names.push(name.to_owned());
        assert(texts(names@) =~= texts(self.names@).push(name@));
        Place { base: self.base, names }
    }
}

fn join_opt<B>(place: Option<Place<B>>, name: &str) -> (r: Option<Place<B>>)
    ensures
        opt_place(r) == below(opt_place(place), name@),
{
    match place {
        Some(p) => Some(p.join(name)),
        None => None,
    }
}

pub fn home_dir<B>(env: Environment<B>) -> (r: Option<B>)
    ensures
        r == home(env),
{
    match env.userprofile {
        Some(d) => Some(d),
        None => env.home,
    }
}

pub fn claude_config_dir<B>(env: Environment<B>) -> (r: Option<Place<B>>)
    ensures
        opt_place(r) == config_place(env),
{
    if !env.config_dir_empty {
        if let Some(base) = env.config_dir {
            let p = Place { base, names: Vec::new() };
            assert(p@.names =~= Seq::<Seq<char>>::empty());
            return Some(p);
        }
    }
    let base = match env.userprofile {
        Some(base) => base,
        None => match env.home {
            Some(base) => base,
            None => return None,
        },
    };
    let p = Place { base, names: Vec::new() };
    let mut dir = ".".to_owned();
    dir.append(product::name().as_str());
    let r = p.join(dir.as_str());
    assert(r@.names =~= seq![hidden_dir()]);
    Some(r)
}

/// `projects` in the config directory.
pub fn default_projects_dir<B>(env: Environment<B>) -> (r: Option<Place<B>>)
    ensures
        opt_place(r) == below(config_place(env), "projects"@),
{
    join_opt(claude_config_dir(env), "projects")
}

/// `settings.json` in the config directory (where the statusLine hook is configured).
pub fn settings_path<B>(env: Environment<B>) -> (r: Option<Place<B>>)
    ensures
        opt_place(r) == below(config_place(env), "settings.json"@),
{
    join_opt(claude_config_dir(env), "settings.json")
}

/// `usage-snapshot.json` in the config directory — written by the statusline hook, read by the panel.
pub fn default_snapshot_path<B>(env: Environment<B>) -> (r: Option<Place<B>>)
    ensures
        opt_place(r) == below(config_place(env), "usage-snapshot.json"@),
{
    join_opt(claude_config_dir(env), "usage-snapshot.json")
}

/// `.credentials.json` in the config directory.
pub fn credentials_path<B>(env: Environment<B>) -> (r: Option<Place<B>>)
    ensures
        opt_place(r) == below(config_place(env), ".credentials.json"@),
{
    join_opt(claude_config_dir(env), ".credentials.json")
}

/// A place stands for just what it holds.
pub proof fn places_are_taken_as_they_are<B>(p: Place<B>)
    ensures
        p@.base == p.base,
        p@.names.len() == p.names@.len(),
        forall|i: int| 0 <= i < p.names@.len() ==> p@.names[i] == (#[trigger] p.names@[i])@,
        opt_place(Some(p)) == Some(p@),
        opt_place(None::<Place<B>>) is None,
{
}

/// The config directory is where its variable says, unless that is empty; else the hidden
/// directory in the user's profile, or in the home directory where there is no profile. No other
/// variable has a part in it.
pub proof fn where_the_config_directory_is<B>(env: Environment<B>)
    ensures
        ({
            let p = config_place(env);
            let set = env.config_dir is Some && !env.config_dir_empty;
            &&& set ==> p is Some && p->0.base == env.config_dir->0 && p->0.names.len() == 0
            &&& !set && env.userprofile is Some ==> p is Some && p->0.base == env.userprofile->0
                && p->0.names == seq!["."@ + product::small()]
            &&& !set && env.userprofile is None && env.home is Some ==> p is Some && p->0.base
                == env.home->0 && p->0.names == seq!["."@ + product::small()]
            &&& !set && env.userprofile is None && env.home is None ==> p is None
            &&& env.userprofile is Some ==> home(env) == env.userprofile
            &&& env.userprofile is None ==> home(env) == env.home
        }),
{
}

/// A name is joined to a place behind all that it has.
pub proof fn names_are_joined_at_the_end<B>(place: PlaceView<B>, name: Seq<char>)
    ensures
        below(Some(place), name) == Some(
            PlaceView { base: place.base, names: place.names + seq![name] },
        ),
        below(None::<PlaceView<B>>, name) is None,
{
    assert(place.names.push(name) =~= place.names + seq![name]);
}

} // verus!
