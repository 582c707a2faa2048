//! Where the application keeps its files: path strings below a
//! directory of the user's home. Only the path arithmetic lives here;
//! reading the home directory and touching the filesystem belong to
//! the caller.

use vstd::prelude::*;
use vstd::string::StringExecFns;

verus! {

/// The application directory's name under the user's home directory.
pub open spec fn app_directory_name() -> Seq<char> {
    ".consul-desktop-ui"@
}

/// Path helper for a Unix-like layout: paths join with `/`.
pub struct LinuxFileSystemAppHelper {}

impl LinuxFileSystemAppHelper {
    /// A helper; it carries no state.
    pub fn new() -> (r: LinuxFileSystemAppHelper) {
        LinuxFileSystemAppHelper {  }
    }

    /// The application directory below `home`.
    pub fn app_directory_path(&self, home: &String) -> (r: String)
        ensures
            r@ == home@ + seq!['/'] + app_directory_name(),
    {
        let mut s = home.clone();
        s.append("/");
        s.append(".consul-desktop-ui");
        proof {
            reveal_strlit("/");
            assert("/"@ =~= seq!['/']);
        }
        s
    }

    /// The path of `relative_path` inside the application directory
    /// below `home`.
    pub fn get_path(&self, home: &String, relative_path: &String) -> (r: String)
        ensures
            r@ == home@ + seq!['/'] + app_directory_name() + seq!['/'] + relative_path@,
    {
        let mut s = self.app_directory_path(home);
        s.append("/");
        s.append(relative_path.as_str());
        proof {
            reveal_strlit("/");
            assert("/"@ =~= seq!['/']);
        }
        s
    }
}

/// The path helper for this platform.
pub fn get_file_system_helper() -> (r: LinuxFileSystemAppHelper) {
    LinuxFileSystemAppHelper::new()
}

} // verus!
