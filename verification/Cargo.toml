[package]
name = "dsh_desktop"
version = "0.1.9"
edition = "2021"
publish = false

[dependencies]
dirs = "6"
libc = "0.2"
log = "0.4"
open = "5"
reqwest = { version = "0.12", default-features = false, features = ["json"] }
serde = { version = "1", features = ["derive"] }
serde_json = "1"
serde_yaml = "0.9"
sysinfo = { version = "0.33", default-features = false, features = ["system"] }
tokio = { version = "1", features = ["time", "macros", "rt"] }
url = "2"
winapi = { version = "0.3", features = ["handleapi", "jobapi2", "namedpipeapi", "processthreadsapi", "synchapi", "tlhelp32", "winbase", "winerror", "winnls", "winnt", "winuser"] }
