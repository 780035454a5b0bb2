use vstd::prelude::*;
use vstd::string::StringExecFns;

verus! {

/// The temporary directory for tests on a Unix-like system.
pub open spec fn unix_test_dir() -> Seq<char> {
    "/tmp"@
}

/// The temporary directory for tests on other systems.
pub open spec fn win_test_dir() -> Seq<char> {
    "C:\\Temp"@
}

/// The path of the test directory `dir_name` under the temporary directory
/// of the system, Unix-like when `is_unix` holds.
pub fn get_tmp_dir_path(dir_name: &str, is_unix: bool) -> (r: String)
    ensures
        r@ == if is_unix {
            unix_test_dir() + "/"@ + dir_name@
        } else {
            win_test_dir() + "\\"@ + dir_name@
        },
{
    let mut dir;
    if is_unix {
        dir = "/tmp".to_owned();
        dir.append("/");
    } else {
        dir = "C:\\Temp".to_owned();
        dir.append("\\");
    }
    dir.append(dir_name);
    dir
}

} // verus!
