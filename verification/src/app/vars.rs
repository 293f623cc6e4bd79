//! Where the configuration file lives, and whether it exists.
use vstd::prelude::*;

use crate::constants;

verus! {

/// The user's home directory as `dirs::home_dir` reports it, as text.
///
/// Calls `dirs::home_dir` and displays the path it returns. The answer comes
/// from the environment (`$HOME`, the user database or the system's profile
/// folder), so nothing is stated of it.
#[verifier::external_body]
fn find_home_dir() -> (r: Option<String>) {
    match dirs::home_dir() {
        Some(path) => Some(path.display().to_string()),
        None => None,
    }
}

/// The path of the configuration file in the directory `home`.
pub open spec fn config_file_path(home: Seq<char>) -> Seq<char> {
    home + seq!['/'] + constants::FILE_NAME@
}

/// The mathematical value of [`AppVars`].
pub struct AppVarsView {
    pub file_path: Seq<char>,
    pub file_exist: bool,
}

/// The location of the configuration file and whether it was found.
pub struct AppVars {
    file_path: String,
    file_exist: bool,
}

impl View for AppVars {
    type V = AppVarsView;

    closed spec fn view(&self) -> AppVarsView {
        AppVarsView { file_path: self.file_path@, file_exist: self.file_exist }
    }
}

impl AppVars {
    /// The configuration file's path in the directory `home`.
    pub fn file_path_in(home: &str) -> (r: String)
        ensures
            r@ == config_file_path(home@),
    {
        let mut r = home.to_owned();
        r.append("/");
        r.append(constants::FILE_NAME);
        proof {
            reveal_strlit("/");
        }
        assert(r@ =~= config_file_path(home@));
        r
    }

    /// The configuration file's path in the user's home directory, or `None`
    /// where no home directory can be determined.
    pub fn init_vars() -> (r: Option<String>)
        ensures
            r matches Some(p) ==> exists|home: Seq<char>| p@ == config_file_path(home),
    {
        match find_home_dir() {
            Some(home) => Some(Self::file_path_in(home.as_str())),
            None => None,
        }
    }
}

/// Construction of [`AppVars`] and access to its fields.
pub trait AppVarsAction: Sized + View<V = AppVarsView> {
    /// The variables for the file at `file_path`, found or not as
    /// `file_exist` says.
    fn new(file_path: String, file_exist: bool) -> (r: AppVars)
        ensures
            r@ == (AppVarsView { file_path: file_path@, file_exist }),
    ;

    /// A copy of the configuration file's path.
    fn get_file_path(&self) -> (r: String)
        ensures
            r@ == self@.file_path,
    ;

    /// Whether the configuration file exists.
    fn get_file_exist(&self) -> (r: bool)
        ensures
            r == self@.file_exist,
    ;
}

impl AppVarsAction for AppVars {
    fn new(file_path: String, file_exist: bool) -> (r: AppVars) {
        AppVars { file_path, file_exist }
    }

    fn get_file_path(&self) -> (r: String) {
        self.file_path.clone()
    }

    fn get_file_exist(&self) -> (r: bool) {
        self.file_exist
    }
}

} // verus!
