//! Starting a thread for a Lua script, and what follows from the way the script ends.

use vstd::prelude::*;
use crate::path::{
    components, file_name, law_file_name_is_last_component, lossy_text, FilePath,
};
use crate::text::{decimal, decimal_text};
use crate::util::{get_manifest_for, manifest_path};

verus! {

/// How starting a script thread ends.
#[derive(Debug, Clone, Copy, PartialEq, Eq, Structural)]
pub enum LaunchOutcome {
    Started,
    /// The script or its manifest is not accessible.
    ScriptExecError,
    /// No thread could be started.
    SpawnError,
}

/// How far the attempt to start a script thread has come.
#[derive(Debug, Clone, Copy, PartialEq, Eq, Structural)]
pub enum LaunchPhase {
    Script,
    Manifest,
    Thread,
    Over(LaunchOutcome),
}

/// What is asked for while a script thread is started. The reply to a request is whether it
/// succeeded.
#[derive(Debug)]
pub enum LaunchRequest {
    /// Read a file.
    ReadFile(FilePath),
    /// Start a thread with this name.
    Spawn(String),
    /// The attempt is over.
    Stop(LaunchOutcome),
}

/// An attempt to start a thread for a script.
#[derive(Debug)]
pub struct LuaLauncher {
    pub thread_idx: usize,
    pub script_path: FilePath,
    pub phase: LaunchPhase,
}

/// The phase behind a reply. A script is started only if both its files are accessible.
pub open spec fn next_phase(phase: LaunchPhase, success: bool) -> LaunchPhase {
    match phase {
        LaunchPhase::Script => if success {
            LaunchPhase::Manifest
        } else {
            LaunchPhase::Over(LaunchOutcome::ScriptExecError)
        },
        LaunchPhase::Manifest => if success {
            LaunchPhase::Thread
        } else {
            LaunchPhase::Over(LaunchOutcome::ScriptExecError)
        },
        LaunchPhase::Thread => if success {
            LaunchPhase::Over(LaunchOutcome::Started)
        } else {
            LaunchPhase::Over(LaunchOutcome::SpawnError)
        },
        LaunchPhase::Over(outcome) => LaunchPhase::Over(outcome),
    }
}

/// The name of the thread that runs a script: its index and the file name of the script.
pub open spec fn script_thread_name(thread_idx: usize, script_path: Seq<u8>) -> Seq<char> {
    decimal(thread_idx as nat) + ":"@ + lossy_text(file_name(script_path)->0)
}

/// The name of the thread that runs a script.
pub fn lua_thread_name(thread_idx: usize, script_path: &FilePath) -> (name: String)
    requires
        file_name(script_path@) is Some,
    ensures
        name@ == script_thread_name(thread_idx, script_path@),
{
    let file = match script_path.file_name() {
        Some(bytes) => FilePath { bytes },
        None => FilePath { bytes: Vec::new() },
    };
    decimal_text(thread_idx).concat(":").concat(file.display().as_str())
}

impl LuaLauncher {
    /// Begins with the script file.
    pub fn new(thread_idx: usize, script_path: FilePath) -> (launcher: LuaLauncher)
        ensures
            launcher == (LuaLauncher { thread_idx, script_path, phase: LaunchPhase::Script }),
    {
        LuaLauncher { thread_idx, script_path, phase: LaunchPhase::Script }
    }

    /// What is to be done next. A thread is named after the file name of its script.
    pub fn request(&self) -> (request: LaunchRequest)
        requires
            self.phase == LaunchPhase::Thread ==> file_name(self.script_path@) is Some,
        ensures
            (match self.phase {
                LaunchPhase::Script => request matches LaunchRequest::ReadFile(path) && path@
                    == self.script_path@,
                LaunchPhase::Manifest => request matches LaunchRequest::ReadFile(path) && path@
                    == manifest_path(self.script_path@),
                LaunchPhase::Thread => request matches LaunchRequest::Spawn(name) && name@
                    == script_thread_name(self.thread_idx, self.script_path@),
                LaunchPhase::Over(outcome) => request == LaunchRequest::Stop(outcome),
            }),
    {
        match self.phase {
            LaunchPhase::Script => LaunchRequest::ReadFile(self.script_path.duplicate()),
            LaunchPhase::Manifest => LaunchRequest::ReadFile(get_manifest_for(&self.script_path)),
            LaunchPhase::Thread => LaunchRequest::Spawn(
                lua_thread_name(self.thread_idx, &self.script_path),
            ),
            LaunchPhase::Over(outcome) => LaunchRequest::Stop(outcome),
        }
    }

    /// Takes the step that the reply to the current request calls for.
    pub fn step(&mut self, success: bool)
        ensures
            final(self).phase == next_phase(old(self).phase, success),
            final(self).thread_idx == old(self).thread_idx,
            final(self).script_path == old(self).script_path,
    {
        self.phase = match (self.phase, success) {
            (LaunchPhase::Script, true) => LaunchPhase::Manifest,
            (LaunchPhase::Manifest, true) => LaunchPhase::Thread,
            (LaunchPhase::Thread, true) => LaunchPhase::Over(LaunchOutcome::Started),
            (LaunchPhase::Thread, false) => LaunchPhase::Over(LaunchOutcome::SpawnError),
            (LaunchPhase::Over(outcome), _) => LaunchPhase::Over(outcome),
            (_, false) => LaunchPhase::Over(LaunchOutcome::ScriptExecError),
        };
    }
}

/// A script runs just if the script and its manifest are accessible and a thread can be
/// started. Without the files no thread is started at all.
pub proof fn law_script_starts_if_accessible(script: bool, manifest: bool, spawned: bool)
    ensures
        ({
            let first = next_phase(LaunchPhase::Script, script);
            let second = next_phase(first, manifest);
            let third = next_phase(second, spawned);
            &&& second == LaunchPhase::Thread <==> script && manifest
            &&& third == LaunchPhase::Over(LaunchOutcome::Started) <==> script && manifest
                && spawned
            &&& third == LaunchPhase::Over(LaunchOutcome::ScriptExecError) <==> !script
                || !manifest
            &&& third == LaunchPhase::Over(LaunchOutcome::SpawnError) <==> script && manifest
                && !spawned
        }),
{
}

/// How a script ends.
#[derive(Debug, Clone, Copy, PartialEq, Eq, Structural)]
pub enum RunScriptResult {
    TerminatedGracefully,
    TerminatedWithErrors,
    /// The script could not be run.
    UnknownError,
}

/// How a script thread ends.
#[derive(Debug, Clone, Copy, PartialEq, Eq, Structural)]
pub enum LuaOutcome {
    Finished,
    ScriptExecError,
}

/// What a script thread asks for.
#[derive(Debug, Clone, Copy, PartialEq, Eq, Structural)]
pub enum LuaRequest {
    /// Run the script. Reply: `Ended`.
    RunScript,
    /// Mark the channel of the thread with this index as failed. Reply: `Done`.
    MarkFailed(usize),
    /// Have the failsafe mode entered. Reply: `Done`.
    RequestFailsafe,
    /// The thread ends.
    Stop(LuaOutcome),
}

/// The replies to requests.
#[derive(Debug, Clone, Copy, PartialEq, Eq, Structural)]
pub enum LuaReply {
    Done,
    Ended(RunScriptResult),
}

/// The state of a script thread.
#[derive(Debug, Clone, Copy, PartialEq, Eq, Structural)]
pub struct LuaThread {
    pub thread_idx: usize,
    /// What the thread waits for.
    pub request: LuaRequest,
}

impl LuaThread {
    /// The same thread with another request.
    pub open spec fn ask(self, request: LuaRequest) -> LuaThread {
        LuaThread { request, ..self }
    }

    /// Does a reply answer the request of the thread?
    pub open spec fn fits(self, reply: LuaReply) -> bool {
        match self.request {
            LuaRequest::RunScript => reply is Ended,
            LuaRequest::MarkFailed(_) => reply is Done,
            LuaRequest::RequestFailsafe => reply is Done,
            LuaRequest::Stop(_) => false,
        }
    }

    /// The state behind a reply.
    pub open spec fn next(self, reply: LuaReply) -> LuaThread {
        match self.request {
            LuaRequest::RunScript => if reply == LuaReply::Ended(
                RunScriptResult::TerminatedGracefully,
            ) {
                self.ask(LuaRequest::Stop(LuaOutcome::Finished))
            } else {
                self.ask(LuaRequest::MarkFailed(self.thread_idx))
            },
            LuaRequest::MarkFailed(_) => self.ask(LuaRequest::RequestFailsafe),
            LuaRequest::RequestFailsafe => self.ask(LuaRequest::Stop(LuaOutcome::ScriptExecError)),
            LuaRequest::Stop(_) => self,
        }
    }

    /// Starts the thread.
    pub fn new(thread_idx: usize) -> (thread: LuaThread)
        ensures
            thread == (LuaThread { thread_idx, request: LuaRequest::RunScript }),
    {
        LuaThread { thread_idx, request: LuaRequest::RunScript }
    }

    /// Takes the step that the reply to the current request calls for.
    pub fn step(&mut self, reply: LuaReply)
        requires
            old(self).fits(reply),
        ensures
            *final(self) == old(self).next(reply),
    {
        match (self.request, reply) {
            (LuaRequest::RunScript, LuaReply::Ended(result)) => {
                self.request = match result {
                    RunScriptResult::TerminatedGracefully => LuaRequest::Stop(LuaOutcome::Finished),
                    _ => LuaRequest::MarkFailed(self.thread_idx),
                };
            },
            (LuaRequest::MarkFailed(_), LuaReply::Done) => {
                self.request = LuaRequest::RequestFailsafe;
            },
            (LuaRequest::RequestFailsafe, LuaReply::Done) => {
                self.request = LuaRequest::Stop(LuaOutcome::ScriptExecError);
            },
            _ => {},
        }
    }
}

/// A script thread ends without an error just if its script terminates gracefully. In every
/// other case its channel is marked as failed and the failsafe mode is entered, before the
/// thread ends with an error.
pub proof fn law_failed_script_enters_failsafe(thread: LuaThread, result: RunScriptResult)
    requires
        thread.request == LuaRequest::RunScript,
    ensures
        ({
            let ended = thread.next(LuaReply::Ended(result));
            if result == RunScriptResult::TerminatedGracefully {
                ended.request == LuaRequest::Stop(LuaOutcome::Finished)
            } else {
                let marked = ended.next(LuaReply::Done);
                let entered = marked.next(LuaReply::Done);
                &&& ended.request == LuaRequest::MarkFailed(thread.thread_idx)
                &&& marked.request == LuaRequest::RequestFailsafe
                &&& entered.request == LuaRequest::Stop(LuaOutcome::ScriptExecError)
            }
        }),
{
}

/// The dialog of a script thread: it ends without an error just behind a graceful end of the
/// script, and otherwise marks its own channel, asks for the failsafe mode and ends with an
/// error.
pub proof fn law_script_thread_dialog(thread: LuaThread, index: usize)
    ensures
        thread.request == LuaRequest::RunScript ==> {
            &&& thread.fits(LuaReply::Ended(RunScriptResult::TerminatedGracefully))
            &&& thread.next(LuaReply::Ended(RunScriptResult::TerminatedGracefully)) == (LuaThread {
                request: LuaRequest::Stop(LuaOutcome::Finished),
                ..thread
            })
            &&& thread.fits(LuaReply::Ended(RunScriptResult::TerminatedWithErrors))
            &&& thread.next(LuaReply::Ended(RunScriptResult::TerminatedWithErrors)) == (LuaThread {
                request: LuaRequest::MarkFailed(thread.thread_idx),
                ..thread
            })
            &&& thread.fits(LuaReply::Ended(RunScriptResult::UnknownError))
            &&& thread.next(LuaReply::Ended(RunScriptResult::UnknownError)) == (LuaThread {
                request: LuaRequest::MarkFailed(thread.thread_idx),
                ..thread
            })
        },
        thread.request == LuaRequest::MarkFailed(index) ==> {
            &&& thread.fits(LuaReply::Done)
            &&& thread.next(LuaReply::Done) == (LuaThread {
                request: LuaRequest::RequestFailsafe,
                ..thread
            })
        },
        thread.request == LuaRequest::RequestFailsafe ==> {
            &&& thread.fits(LuaReply::Done)
            &&& thread.next(LuaReply::Done) == (LuaThread {
                request: LuaRequest::Stop(LuaOutcome::ScriptExecError),
                ..thread
            })
        },
{
}

/// The script is read before its manifest, the manifest before a thread is started, and what
/// fails ends the attempt.
pub proof fn law_launch_goes_step_by_step()
    ensures
        next_phase(LaunchPhase::Script, true) == LaunchPhase::Manifest,
        next_phase(LaunchPhase::Script, false) == LaunchPhase::Over(LaunchOutcome::ScriptExecError),
        next_phase(LaunchPhase::Manifest, true) == LaunchPhase::Thread,
        next_phase(LaunchPhase::Manifest, false) == LaunchPhase::Over(
            LaunchOutcome::ScriptExecError,
        ),
        next_phase(LaunchPhase::Thread, true) == LaunchPhase::Over(LaunchOutcome::Started),
        next_phase(LaunchPhase::Thread, false) == LaunchPhase::Over(LaunchOutcome::SpawnError),
{
}

/// An attempt to start a script that is over stays over.
pub proof fn law_launch_ends_once(outcome: LaunchOutcome, success: bool)
    ensures
        next_phase(LaunchPhase::Over(outcome), success) == LaunchPhase::Over(outcome),
{
}

/// A script thread is named by its index, a colon and the file name of its script, which is the
/// last component of the path.
pub proof fn law_script_thread_name_tells_script(
    thread_idx: usize,
    script_path: FilePath,
    name: String,
)
    requires
        components(script_path@).1.len() > 0,
        components(script_path@).1.last() != seq![46u8],
        components(script_path@).1.last() != seq![46u8, 46],
        call_ensures(lua_thread_name, (thread_idx, &script_path), name),
    ensures
        name@ == decimal(thread_idx as nat) + ":"@ + lossy_text(components(script_path@).1.last()),
{
    law_file_name_is_last_component(script_path@);
}

/// To start a script, first the script and then its manifest is read, and then a thread is
/// started under the name that tells the script.
pub proof fn law_launcher_asks_in_order(launcher: LuaLauncher, request: LaunchRequest, name: String)
    requires
        call_ensures(LuaLauncher::request, (&launcher,), request),
        call_ensures(lua_thread_name, (launcher.thread_idx, &launcher.script_path), name),
    ensures
        (match launcher.phase {
            LaunchPhase::Script => request matches LaunchRequest::ReadFile(path) && path@
                == launcher.script_path@,
            LaunchPhase::Manifest => request matches LaunchRequest::ReadFile(path) && path@
                == manifest_path(launcher.script_path@),
            LaunchPhase::Thread => request matches LaunchRequest::Spawn(given) && given@ == name@,
            LaunchPhase::Over(outcome) => request == LaunchRequest::Stop(outcome),
        }),
{
}

/// A new attempt begins with the script file, a new script thread with the script, and each step
/// goes on to what the reply calls for.
pub proof fn law_calls_follow_the_replies(
    thread_idx: usize,
    script_path: FilePath,
    success: bool,
    reply: LuaReply,
)
    ensures
        forall|launcher: LuaLauncher| #[trigger]
            call_ensures(LuaLauncher::new, (thread_idx, script_path), launcher) ==> launcher.phase
                == LaunchPhase::Script && launcher.thread_idx == thread_idx && launcher.script_path
                == script_path,
        forall|launcher: &mut LuaLauncher| #[trigger]
            call_ensures(LuaLauncher::step, (launcher, success), ()) ==> {
                &&& final(launcher).phase == next_phase(launcher.phase, success)
                &&& final(launcher).thread_idx == launcher.thread_idx
                &&& final(launcher).script_path == launcher.script_path
            },
        forall|thread: LuaThread| #[trigger]
            call_ensures(LuaThread::new, (thread_idx,), thread) ==> thread.thread_idx == thread_idx
                && thread.request == LuaRequest::RunScript,
        forall|thread: &mut LuaThread| #[trigger]
            call_ensures(LuaThread::step, (thread, reply), ()) ==> *final(thread) == thread.next(
                reply,
            ),
{
}

} // verus!
