//! The log file: when it is put aside, and what a line of it looks like.
use crate::paths;
use crate::paths::{Os, parent, with_extension};
use crate::text;
use crate::text::{cat, cat3};
use vstd::prelude::*;

verus! {

/// What holds of every log file.
#[derive(Debug)]
pub struct FileLogger {
    /// How large a log file may be when it is opened.
    pub max_bytes: u64,
}

/// What is to be done before a log file is opened.
#[derive(Debug)]
pub struct LogPlan {
    /// The directory that has to be there.
    pub directory: Option<String>,
    /// Where the file that is there is put aside.
    pub aside: Option<String>,
}

impl FileLogger {
    /// A log of up to two megabytes.
    pub fn new() -> (r: Self)
        ensures
            r.max_bytes == 2 * 1024 * 1024,
    {
        FileLogger { max_bytes: 2 * 1024 * 1024 }
    }

    /// What is to be done before the log file is opened. `size` is how large the file is that is
    /// there.
    pub fn init(&self, os: Os, path: &str, size: Option<u64>) -> (r: LogPlan)
        ensures
            text::opt(r.directory) == paths::parent_of(os, path@),
            text::opt(r.aside) == (if size is Some && size->0 > self.max_bytes {
                Some(paths::with_extension_of(os, path@, "log.old"@))
            } else {
                None
            }),
    {
        let aside = match size {
            Some(n) => if n > self.max_bytes {
                proof {
                    reveal_strlit("log.old");
                }
                Some(with_extension(os, path, "log.old"))
            } else {
                None
            },
            None => None,
        };
        LogPlan { directory: parent(os, path), aside }
    }
}

/// A line of the log.
pub fn log_line(level: &str, target: &str, message: &str) -> (r: String)
    ensures
        r@ == "["@ + level@ + "] "@ + target@ + ": "@ + message@,
{
    cat(cat3(cat3("[", level, "] ").as_str(), target, ": ").as_str(), message)
}

/// A log file that has grown too large is put aside before the next lines, and one that has not, or
/// is not there, is not.
pub proof fn large_log_is_put_aside(
    logger: &FileLogger,
    os: Os,
    path: &str,
    size: Option<u64>,
    r: LogPlan,
)
    requires
        call_ensures(FileLogger::init, (logger, os, path, size), r),
    ensures
        r.aside is Some <==> size is Some && size->0 > logger.max_bytes,
        r.aside matches Some(p) ==> p@ == paths::with_extension_of(os, path@, "log.old"@),
        r.directory is Some <==> paths::parent_of(os, path@) is Some,
        r.directory matches Some(d) ==> paths::parent_of(os, path@) == Some(d@),
{
}

/// A line of the log names its level, where it comes from and what is said.
pub proof fn log_line_names_its_parts(level: &str, target: &str, message: &str, r: String)
    requires
        call_ensures(log_line, (level, target, message), r),
    ensures
        r@ == "["@ + level@ + "] "@ + target@ + ": "@ + message@,
{
}

} // verus!
