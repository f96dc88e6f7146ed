use vstd::prelude::*;

verus! {

/// The path that `std::path::Path::join` makes of `base` and `name`.
pub uninterp spec fn joined_path(base: Seq<char>, name: Seq<char>) -> Seq<char>;

/// `std::path::Path::join`, on paths written as UTF-8 text: the result is
/// named, not described (it depends on the platform's separator).
#[verifier::external_body]
fn path_join(base: &str, name: &str) -> (r: String)
    ensures
        r@ == joined_path(base@, name@),
{
    std::path::Path::new(base).join(name).to_string_lossy().into_owned()
}

/// The directories and files that the tool keeps its data in.
pub struct BotDirs {
    config_dir: String,
    config_path: String,
    status_dir: String,
    status_path: String,
}

/// The mathematical value of a [`BotDirs`].
pub struct BotDirsView {
    pub config_dir: Seq<char>,
    pub config_path: Seq<char>,
    pub status_dir: Seq<char>,
    pub status_path: Seq<char>,
}

impl View for BotDirs {
    type V = BotDirsView;

    closed spec fn view(&self) -> BotDirsView {
        BotDirsView {
            config_dir: self.config_dir@,
            config_path: self.config_path@,
            status_dir: self.status_dir@,
            status_path: self.status_path@,
        }
    }
}

impl BotDirs {
    /// Lays out the tool's files: `config.toml` in the configuration
    /// directory and `iamtxtool_status.json` in the state directory.
    pub fn from_dirs(config_dir: String, state_dir: String) -> (r: BotDirs)
        ensures
            r@ == (BotDirsView {
                config_dir: config_dir@,
                config_path: joined_path(config_dir@, "config.toml"@),
                status_dir: state_dir@,
                status_path: joined_path(state_dir@, "iamtxtool_status.json"@),
            }),
    {
        let config_path = path_join(config_dir.as_str(), "config.toml");
        let status_path = path_join(state_dir.as_str(), "iamtxtool_status.json");
        BotDirs { config_dir, config_path, status_dir: state_dir, status_path }
    }

    /// Path of the configuration file.
    pub fn config_path(&self) -> (r: &str)
        ensures
            r@ == self@.config_path,
    {
        self.config_path.as_str()
    }

    /// Path of the status file.
    pub fn status_path(&self) -> (r: &str)
        ensures
            r@ == self@.status_path,
    {
        self.status_path.as_str()
    }

    /// The directories that installing creates and uninstalling removes:
    /// the configuration directory, then the state directory.
    pub fn dirs(&self) -> (r: Vec<&str>)
        ensures
            r@.len() == 2,
            r@[0]@ == self@.config_dir,
            r@[1]@ == self@.status_dir,
    {
        let mut v: Vec<&str> = Vec::new();
        v.push(self.config_dir.as_str());
        v.push(self.status_dir.as_str());
        v
    }
}

} // verus!
