//! Program state, the input line holder, meta-command handling, and the
//! usage line.

use vstd::prelude::*;

use crate::status::MetaCommandResult;

verus! {

/// Whether the surrounding read-eval-print loop keeps running.
pub struct ProgramState {
    pub running: bool,
}

impl ProgramState {
    /// A fresh state: not running until the loop starts it.
    pub fn new() -> (s: ProgramState)
        ensures
            !s.running,
    {
        ProgramState { running: false }
    }

    /// Set the running flag.
    pub fn set_running(&mut self, running: bool)
        ensures
            final(self).running == running,
    {
        self.running = running;
    }

    /// The running flag.
    pub fn get_running(&self) -> (r: bool)
        ensures
            r == self.running,
    {
        self.running
    }
}

/// Holds the line most recently read from the user.
pub struct InputBuffer {
    pub buffer: String,
}

impl InputBuffer {
    /// An empty buffer.
    pub fn new() -> (b: InputBuffer)
        ensures
            b.buffer@ == Seq::<char>::empty(),
    {
        InputBuffer { buffer: String::new() }
    }
}

/// The bytes of the `.exit` meta-command.
pub open spec fn exit_command() -> Seq<u8> {
    seq![46u8, 101u8, 120u8, 105u8, 116u8]
}

/// The bytes of the `.test` meta-command.
pub open spec fn test_command() -> Seq<u8> {
    seq![46u8, 116u8, 101u8, 115u8, 116u8]
}

/// Whether two byte strings hold the same bytes.
pub fn bytes_eq(a: &Vec<u8>, b: &Vec<u8>) -> (r: bool)
    ensures
        r <==> a@ == b@,
{
    if a.len() != b.len() {
        return false;
    }
    let n = a.len();
    let mut i: usize = 0;
    while i < n
        invariant
            n == a@.len() == b@.len(),
            i <= n,
            forall|k: int| 0 <= k < i ==> a@[k] == b@[k],
        decreases n - i,
    {
        if a[i] != b[i] {
            return false;
        }
        i = i + 1;
    }
    assert(a@ =~= b@);
    true
}

/// Handle a meta-command (a line starting with a dot). `.exit` stops the
/// loop; `.test` succeeds and asks for a diagnostic line; anything else is
/// unrecognized and changes nothing.
pub fn do_meta_command(command: &Vec<u8>, program_state: &mut ProgramState) -> (r:
    MetaCommandResult)
    ensures
        r is MetaCommandSuccess <==> (command@ == exit_command() || command@ == test_command()),
        final(program_state).running == (old(program_state).running && command@ != exit_command()),
{
    let mut exit_cmd: Vec<u8> = Vec::new();
    exit_cmd.push(46);
    exit_cmd.push(101);
    exit_cmd.push(120);
    exit_cmd.push(105);
    exit_cmd.push(116);
    assert(exit_cmd@ =~= exit_command());
    let mut test_cmd: Vec<u8> = Vec::new();
    test_cmd.push(46);
    test_cmd.push(116);
    test_cmd.push(101);
    test_cmd.push(115);
    test_cmd.push(116);
    assert(test_cmd@ =~= test_command());
    if bytes_eq(command, &exit_cmd) {
        program_state.running = false;
        return MetaCommandResult::MetaCommandSuccess;
    }
    if bytes_eq(command, &test_cmd) {
        return MetaCommandResult::MetaCommandSuccess;
    }
    MetaCommandResult::MetaCommandUnrecognized
}

/// The usage line shown when no database file is named.
pub fn usage(exec_path: String) -> (r: String)
    ensures
        r@ == "Usage: "@ + exec_path@ + " <database_file_name>"@,
{
    let mut s = String::from_str("Usage: ");
    s.append(exec_path.as_str());
    s.append(" <database_file_name>");
    s
}

} // verus!
