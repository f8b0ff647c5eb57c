//! Recording of shell sessions: the environment threaded between commands,
//! the session model with its naming rule, the rules of the session store,
//! and the resolution of references to recorded sessions.

pub mod cli;
pub mod exec;
pub mod printer;
pub mod reference;
pub mod scanner;
pub mod script;
pub mod session;
pub mod store;
pub mod text;

pub use cli::{
    collect_commands, listing_footer, CommandSource, ListAction, Recorded, Recording,
    RemoveAction, RunAction, ShowAction,
};
pub use exec::{
    command_result, exit_success, parse_env_file, trap_script, CommandResult, Environment,
    ExecError,
};
pub use printer::{
    needs_newline, print_session, print_session_brief, print_session_script, Printed,
};
pub use reference::{parse_index, resolve_reference, resolve_references, ReferenceError};
pub use scanner::{scan_step, ScanEvent, ScanStep};
pub use script::{read_script, ScriptError};
pub use session::{
    session_key, CommandRecord, CommandRecordSummary, CommandStatus, Session, SessionSummary,
    Timestamp,
};
pub use store::{compare_names, is_session_file, newest_first, session_file_name};
