//! Where the tracker keeps its state.
use vstd::prelude::*;
use crate::text::{from_chars, opt_seq, to_chars};

verus! {

/// `base` with the relative path `name` appended, as `Path::join` does it on
/// Unix: a `/` goes between them unless `base` is empty or already ends in one.
pub open spec fn join_path(base: Seq<char>, name: Seq<char>) -> Seq<char> {
    if base.len() == 0 || base.last() == '/' {
        base + name
    } else {
        base + seq!['/'] + name
    }
}

/// Appends the relative path `name` (which does not start with `/`) to `base`.
pub fn join_relative(base: &str, name: &str) -> (r: String)
    requires
        name@.len() == 0 || name@[0] != '/',
    ensures
        r@ == join_path(base@, name@),
{
    let mut chars = to_chars(base);
    let n = chars.len();
    if n > 0 && chars[n - 1] != '/' {
        chars.push('/');
    }
    let mut rest = to_chars(name);
    chars.append(&mut rest);
    proof {
        if n > 0 {
            assert(base@.last() == base@[n - 1]);
        }
    }
    assert(chars@ =~= join_path(base@, name@));
    from_chars(chars.as_slice())
}

/// The files of the tracker: both live in one state directory.
#[derive(Debug, Clone, PartialEq, Eq)]
pub struct TrackerPaths {
    state_dir: String,
}

/// No directory could be chosen because `HOME` is not set.
#[derive(Debug, Clone, Copy, PartialEq, Eq)]
pub struct HomeNotSet;

impl HomeNotSet {
    /// The text that describes the error.
    pub fn message(&self) -> (r: String)
        ensures
            r@ == "HOME is not set"@,
    {
        String::from_str("HOME is not set")
    }
}

/// The directory chosen from the values of `$XDG_<KIND>_HOME` and `$HOME`:
/// `xdg/<under_xdg>` when the first is set, else `home/<under_home>`.
pub open spec fn xdg_dir(
    xdg: Option<Seq<char>>,
    home: Option<Seq<char>>,
    under_xdg: Seq<char>,
    under_home: Seq<char>,
) -> Option<Seq<char>> {
    match xdg {
        Some(x) => Some(join_path(x, under_xdg)),
        None => match home {
            Some(h) => Some(join_path(h, under_home)),
            None => None,
        },
    }
}

fn choose_dir(
    xdg: Option<String>,
    home: Option<String>,
    under_xdg: &str,
    under_home: &str,
) -> (r: Result<String, HomeNotSet>)
    requires
        under_xdg@.len() > 0 && under_xdg@[0] != '/',
        under_home@.len() > 0 && under_home@[0] != '/',
    ensures
        r matches Ok(p) ==> xdg_dir(opt_seq(xdg), opt_seq(home), under_xdg@, under_home@)
            == Some(p@),
        r is Err ==> xdg_dir(opt_seq(xdg), opt_seq(home), under_xdg@, under_home@) is None,
{
    match xdg {
        Some(x) => Ok(join_relative(x.as_str(), under_xdg)),
        None => match home {
            Some(h) => Ok(join_relative(h.as_str(), under_home)),
            None => Err(HomeNotSet),
        },
    }
}

/// The default state directory, from the values of `XDG_STATE_HOME` and `HOME`.
pub fn default_state_dir(xdg_state_home: Option<String>, home: Option<String>) -> (r: Result<
    String,
    HomeNotSet,
>)
    ensures
        r matches Ok(p) ==> Some(p@) == xdg_dir(
            opt_seq(xdg_state_home),
            opt_seq(home),
            "keychron-tracker"@,
            ".local/state/keychron-tracker"@,
        ),
        r is Err ==> xdg_state_home is None && home is None,
{
    proof {
        reveal_strlit("keychron-tracker");
        reveal_strlit(".local/state/keychron-tracker");
    }
    choose_dir(xdg_state_home, home, "keychron-tracker", ".local/state/keychron-tracker")
}

/// The directory of user-level systemd units, from the values of
/// `XDG_CONFIG_HOME` and `HOME`.
pub fn default_user_systemd_dir(xdg_config_home: Option<String>, home: Option<String>) -> (r:
    Result<String, HomeNotSet>)
    ensures
        r matches Ok(p) ==> Some(p@) == xdg_dir(
            opt_seq(xdg_config_home),
            opt_seq(home),
            "systemd/user"@,
            ".config/systemd/user"@,
        ),
        r is Err ==> xdg_config_home is None && home is None,
{
    proof {
        reveal_strlit("systemd/user");
        reveal_strlit(".config/systemd/user");
    }
    choose_dir(xdg_config_home, home, "systemd/user", ".config/systemd/user")
}

impl TrackerPaths {
    pub closed spec fn spec_state_dir(&self) -> Seq<char> {
        self.state_dir@
    }

    pub fn new(state_dir: &str) -> (r: Self)
        ensures
            r.spec_state_dir() == state_dir@,
    {
        TrackerPaths { state_dir: String::from_str(state_dir) }
    }

    /// The paths under the default state directory, chosen from the values of
    /// `XDG_STATE_HOME` and `HOME`.
    pub fn from_default_state_dir(xdg_state_home: Option<String>, home: Option<String>) -> (r:
        Result<Self, HomeNotSet>)
        ensures
            r matches Ok(p) ==> Some(p.spec_state_dir()) == xdg_dir(
                opt_seq(xdg_state_home),
                opt_seq(home),
                "keychron-tracker"@,
                ".local/state/keychron-tracker"@,
            ),
            r is Err ==> xdg_state_home is None && home is None,
    {
        match default_state_dir(xdg_state_home, home) {
            Ok(dir) => Ok(TrackerPaths { state_dir: dir }),
            Err(e) => Err(e),
        }
    }

    pub fn state_dir(&self) -> (r: &str)
        ensures
            r@ == self.spec_state_dir(),
    {
        self.state_dir.as_str()
    }

    /// The log of completed spans.
    pub fn spans_path(&self) -> (r: String)
        ensures
            r@ == join_path(self.spec_state_dir(), "spans.jsonl"@),
    {
        proof {
            reveal_strlit("spans.jsonl");
        }
        join_relative(self.state_dir.as_str(), "spans.jsonl")
    }

    /// The file of active spans.
    pub fn actives_path(&self) -> (r: String)
        ensures
            r@ == join_path(self.spec_state_dir(), "active.jsonl"@),
    {
        proof {
            reveal_strlit("active.jsonl");
        }
        join_relative(self.state_dir.as_str(), "active.jsonl")
    }
}

/// Both state files lie directly in the state directory under their fixed
/// names: their paths differ in the file name only.
pub proof fn lemma_state_files_share_directory(paths: TrackerPaths)
    ensures
        exists|dir: Seq<char>|
            #![trigger dir + "spans.jsonl"@]
            {
                &&& join_path(paths.spec_state_dir(), "spans.jsonl"@) == dir + "spans.jsonl"@
                &&& join_path(paths.spec_state_dir(), "active.jsonl"@) == dir + "active.jsonl"@
                &&& (dir.len() == 0 || dir.last() == '/')
            },
{
    let d = paths.spec_state_dir();
    let dir = if d.len() == 0 || d.last() == '/' {
        d
    } else {
        d + seq!['/']
    };
    assert(join_path(d, "spans.jsonl"@) =~= dir + "spans.jsonl"@);
    assert(join_path(d, "active.jsonl"@) =~= dir + "active.jsonl"@);
}

} // verus!
