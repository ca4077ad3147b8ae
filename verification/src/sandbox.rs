//! The two-phase enforcement protocol. The parent side turns a profile and
//! a command into a launch plan: the validated command line, and the child's
//! environment with the encoded profile added, both also in the UTF-16 form
//! the platform's process-creation interface takes. The collaborator that
//! owns the native process-creation primitive consumes the plan and spawns
//! exactly one child. The child side reconstructs the profile and performs
//! the irreversible activation step.

use vstd::prelude::*;

use crate::profile::{profile_allows, OperationView, Profile, Request};
use crate::transport::encode_profile;
use crate::transport::enc_ops;
use crate::wide::{utf16_of, wide_from_str, wide_units};
use vstd::string::StrSliceExecFns;
use vstd::string::StringExecFns;

verus! {

/// A parent-side launch failure. Each native failure carries the platform's
/// error code verbatim.
#[derive(Debug, Clone, Copy, PartialEq, Eq, Structural)]
pub enum SandboxError {
    /// The current process's token could not be obtained.
    ProcessToken,
    /// A reduced-privilege token could not be derived.
    RestrictedToken(u32),
    /// An input or output operation around process creation failed.
    IoError(i32),
    /// The native process-creation call failed.
    CreateChildProcess(u32),
    /// The command's program path, an argument or an environment entry
    /// cannot be encoded for the platform's process-creation interface.
    InvalidCommandLine,
}

/// What to execute to produce the child: a program path, its ordered
/// arguments, and the environment to hand it. A mutable builder until it is
/// consumed by launch preparation.
pub struct Command {
    program: String,
    args: Vec<String>,
    env: Vec<(String, String)>,
}

/// Mathematical model of a `Command`.
pub struct CommandView {
    pub program: Seq<char>,
    pub args: Seq<Seq<char>>,
    pub env: Seq<(Seq<char>, Seq<char>)>,
}

/// The views of a sequence of strings.
pub open spec fn str_views(v: Seq<String>) -> Seq<Seq<char>> {
    v.map_values(|s: String| s@)
}

/// The views of a sequence of environment entries.
pub open spec fn env_views(v: Seq<(String, String)>) -> Seq<(Seq<char>, Seq<char>)> {
    v.map_values(|p: (String, String)| (p.0@, p.1@))
}

impl View for Command {
    type V = CommandView;

    closed spec fn view(&self) -> CommandView {
        CommandView { program: self.program@, args: str_views(self.args@), env: env_views(self.env@) }
    }
}

impl Command {
    /// A command that runs `program` with no arguments and an empty
    /// environment.
    pub fn new(program: String) -> (c: Command)
        ensures
            c@.program == program@,
            c@.args.len() == 0,
            c@.env.len() == 0,
    {
        let c = Command { program, args: Vec::new(), env: Vec::new() };
        proof {
            assert(c@.args =~= Seq::<Seq<char>>::empty());
            assert(c@.env =~= Seq::<(Seq<char>, Seq<char>)>::empty());
        }
        c
    }

    /// Appends one argument.
    pub fn arg(self, a: String) -> (c: Command)
        ensures
            c@.program == self@.program,
            c@.args == self@.args.push(a@),
            c@.env == self@.env,
    {
        let mut args = self.args;
        args.push(a);
        let c = Command { program: self.program, args, env: self.env };
        proof {
            assert(c@.args =~= self@.args.push(a@));
        }
        c
    }

    /// Appends one environment entry.
    pub fn env(self, key: String, value: String) -> (c: Command)
        ensures
            c@.program == self@.program,
            c@.args == self@.args,
            c@.env == self@.env.push((key@, value@)),
    {
        let mut env = self.env;
        env.push((key, value));
        let c = Command { program: self.program, args: self.args, env };
        proof {
            assert(c@.env =~= self@.env.push((key@, value@)));
        }
        c
    }
}

/// Whether a string is free of the NUL character, which the platform's
/// textual process-creation interface cannot carry.
pub open spec fn nul_free(s: Seq<char>) -> bool {
    !s.contains('\0')
}

/// Whether a command can be encoded for the process-creation interface:
/// no NUL anywhere, and no `=` inside an environment variable's name.
pub open spec fn command_ok(c: CommandView) -> bool {
    nul_free(c.program) && (forall|i: int| 0 <= i < c.args.len() ==> nul_free(#[trigger] c.args[i]))
        && (forall|i: int|
        0 <= i < c.env.len() ==> nul_free(#[trigger] c.env[i].0) && !c.env[i].0.contains('=')
            && nul_free(c.env[i].1))
}

/// Whether the string holds the character.
fn str_has_char(s: &str, c: char) -> (r: bool)
    ensures
        r == s@.contains(c),
{
    let n = s.unicode_len();
    let mut i: usize = 0;
    while i < n
        invariant
            i <= n,
            n == s@.len(),
            forall|j: int| 0 <= j < i ==> s@[j] != c,
        decreases n - i,
    {
        if s.get_char(i) == c {
            proof {
                assert(s@.contains(c)) by {
                    assert(s@[i as int] == c);
                }
            }
            return true;
        }
        i = i + 1;
    }
    false
}

/// Whether the command can be encoded for the process-creation interface.
fn command_valid(c: &Command) -> (r: bool)
    ensures
        r == command_ok(c@),
{
    if str_has_char(c.program.as_str(), '\0') {
        return false;
    }
    let mut i: usize = 0;
    while i < c.args.len()
        invariant
            i <= c.args@.len(),
            c@.args == str_views(c.args@),
            forall|j: int| 0 <= j < i ==> nul_free(#[trigger] c@.args[j]),
        decreases c.args@.len() - i,
    {
        proof {
            assert(c@.args[i as int] == c.args@[i as int]@);
        }
        if str_has_char(c.args[i].as_str(), '\0') {
            return false;
        }
        i = i + 1;
    }
    let mut k: usize = 0;
    while k < c.env.len()
        invariant
            k <= c.env@.len(),
            c@.env == env_views(c.env@),
            forall|j: int|
                0 <= j < k ==> nul_free(#[trigger] c@.env[j].0) && !c@.env[j].0.contains('=')
                    && nul_free(c@.env[j].1),
        decreases c.env@.len() - k,
    {
        proof {
            assert(c@.env[k as int] == (c.env@[k as int].0@, c.env@[k as int].1@));
            assert(c@.env[k as int].0 == c.env@[k as int].0@);
            assert(c@.env[k as int].1 == c.env@[k as int].1@);
        }
        if str_has_char(c.env[k].0.as_str(), '\0') {
            proof {
                assert(!nul_free(c@.env[k as int].0));
            }
            return false;
        }
        if str_has_char(c.env[k].0.as_str(), '=') {
            proof {
                assert(c@.env[k as int].0.contains('='));
            }
            return false;
        }
        if str_has_char(c.env[k].1.as_str(), '\0') {
            proof {
                assert(!nul_free(c@.env[k as int].1));
            }
            return false;
        }
        proof {
            assert(nul_free(c@.env[k as int].0));
            assert(!c@.env[k as int].0.contains('='));
            assert(nul_free(c@.env[k as int].1));
            assert forall|j: int| 0 <= j < k + 1 implies nul_free(#[trigger] c@.env[j].0)
                && !c@.env[j].0.contains('=') && nul_free(c@.env[j].1) by {
                if j == k as int {
                    assert(nul_free(c@.env[j].0));
                }
            }
        }
        k = k + 1;
    }
    true
}

/// The single command line the process-creation interface takes: the
/// program path, then each argument preceded by one space.
pub open spec fn cmdline_chars(program: Seq<char>, args: Seq<Seq<char>>) -> Seq<char>
    decreases args.len(),
{
    if args.len() == 0 {
        program
    } else {
        cmdline_chars(program, args.drop_last()) + seq![' '] + args.last()
    }
}

/// The environment entries laid out for the process-creation interface:
/// `name=value`, each entry NUL-terminated. The full block carries one more
/// terminating NUL after the last entry.
pub open spec fn env_entries_chars(env: Seq<(Seq<char>, Seq<char>)>) -> Seq<char>
    decreases env.len(),
{
    if env.len() == 0 {
        Seq::empty()
    } else {
        env_entries_chars(env.drop_last()) + env.last().0 + seq!['='] + env.last().1 + seq!['\0']
    }
}

/// Builds the command line from a validated command's pieces.
fn build_command_line(program: &String, args: &Vec<String>) -> (r: String)
    ensures
        r@ == cmdline_chars(program@, str_views(args@)),
{
    let mut out = String::new();
    out.append(program.as_str());
    let mut i: usize = 0;
    while i < args.len()
        invariant
            i <= args@.len(),
            out@ == cmdline_chars(program@, str_views(args@).take(i as int)),
        decreases args@.len() - i,
    {
        out.append(" ");
        out.append(args[i].as_str());
        proof {
            reveal_strlit(" ");
            let views = str_views(args@);
            assert(views[i as int] == args@[i as int]@);
            assert(views.take(i as int + 1).drop_last() =~= views.take(i as int));
            assert(views.take(i as int + 1).last() == views[i as int]);
            assert(" "@ =~= seq![' ']);
        }
        i = i + 1;
    }
    proof {
        assert(str_views(args@).take(args@.len() as int) =~= str_views(args@));
    }
    out
}

/// Builds the NUL-separated environment block, final terminator included.
fn build_env_block(env: &Vec<(String, String)>) -> (r: String)
    ensures
        r@ == env_entries_chars(env_views(env@)) + seq!['\0'],
{
    let mut out = String::new();
    let mut i: usize = 0;
    while i < env.len()
        invariant
            i <= env@.len(),
            out@ == env_entries_chars(env_views(env@).take(i as int)),
        decreases env@.len() - i,
    {
        out.append(env[i].0.as_str());
        out.append("=");
        out.append(env[i].1.as_str());
        out.append("\0");
        proof {
            reveal_strlit("=");
            reveal_strlit("\0");
            let views = env_views(env@);
            assert(views[i as int] == (env@[i as int].0@, env@[i as int].1@));
            assert(views.take(i as int + 1).drop_last() =~= views.take(i as int));
            assert(views.take(i as int + 1).last() == views[i as int]);
            assert("="@ =~= seq!['=']);
            assert("\0"@ =~= seq!['\0']);
            assert(out@ =~= env_entries_chars(views.take(i as int + 1)));
        }
        i = i + 1;
    }
    out.append("\0");
    proof {
        reveal_strlit("\0");
        assert("\0"@ =~= seq!['\0']);
        assert(env_views(env@).take(env@.len() as int) =~= env_views(env@));
    }
    out
}

/// Everything the process-creation collaborator needs to spawn the child:
/// the validated command pieces, the child's environment with the encoded
/// profile added under `GAOL_PROFILE`, and the command line and environment
/// block in both plain and UTF-16 form.
pub struct LaunchPlan {
    /// The program path to execute.
    pub program: String,
    /// The program's arguments, in order.
    pub args: Vec<String>,
    /// The child's environment: the command's entries, then the profile.
    pub env: Vec<(String, String)>,
    /// The program path and arguments joined by single spaces.
    pub command_line: String,
    /// The environment laid out as a NUL-separated, NUL-terminated block.
    pub env_block: String,
}

/// The UTF-16 command line the native process-creation call takes.
pub fn command_line_wide(plan: &LaunchPlan) -> (r: widestring::U16String)
    ensures
        wide_units(r) == utf16_of(plan.command_line@),
{
    wide_from_str(plan.command_line.as_str())
}

/// The UTF-16 environment block the native process-creation call takes.
pub fn environment_block_wide(plan: &LaunchPlan) -> (r: widestring::U16String)
    ensures
        wide_units(r) == utf16_of(plan.env_block@),
{
    wide_from_str(plan.env_block.as_str())
}

/// The parent side of the protocol: holds the validated profile and
/// prepares every restriction that must be established before or during
/// process creation.
pub struct Sandbox {
    profile: Profile,
}

impl Sandbox {
    /// The granted operations this sandbox launches children under.
    pub closed spec fn granted(&self) -> Seq<OperationView> {
        self.profile@
    }

    /// A parent-side sandbox for one profile.
    pub fn new(profile: Profile) -> (s: Sandbox)
        ensures
            s.granted() == profile@,
    {
        Sandbox { profile }
    }

    /// The profile this sandbox launches children under.
    pub fn profile(&self) -> (r: &Profile)
        ensures
            r@ == self.granted(),
    {
        &self.profile
    }

    /// Turns a command into a launch plan: validates that every piece can
    /// be encoded for the process-creation interface, then lays out the
    /// command line and the child's environment — the command's entries
    /// followed by the encoded profile under `GAOL_PROFILE`, so the child
    /// can reconstruct the same granted set. Fails with
    /// `InvalidCommandLine` exactly when some piece cannot be encoded;
    /// nothing is truncated or silently dropped.
    pub fn prepare(&self, command: Command) -> (r: Result<LaunchPlan, SandboxError>)
        ensures
            r is Ok <==> command_ok(command@),
            match r {
                Ok(plan) => plan.program@ == command@.program && str_views(plan.args@)
                    == command@.args && env_views(plan.env@) == command@.env.push(
                    ("GAOL_PROFILE"@, enc_ops(self.granted())),
                ) && plan.command_line@ == cmdline_chars(command@.program, command@.args)
                    && plan.env_block@ == env_entries_chars(env_views(plan.env@)) + seq!['\0'],
                Err(e) => e == SandboxError::InvalidCommandLine,
            },
    {
        if !command_valid(&command) {
            return Err(SandboxError::InvalidCommandLine);
        }
        let encoded = encode_profile(&self.profile);
        let command_line = build_command_line(&command.program, &command.args);
        let mut env = command.env;
        env.push((String::from_str("GAOL_PROFILE"), encoded));
        proof {
            assert(env_views(env@) =~= command@.env.push(
                ("GAOL_PROFILE"@, enc_ops(self.granted())),
            ));
        }
        let env_block = build_env_block(&env);
        Ok(
            LaunchPlan {
                program: command.program,
                args: command.args,
                env,
                command_line,
                env_block,
            },
        )
    }
}

/// The child's activation standing: created but not yet restricted, or in
/// one of the two terminal states. There is no path out of a terminal
/// state: a process can never regain a capability it dropped, and a failed
/// activation is never retried.
#[derive(Debug, Clone, Copy, PartialEq, Eq, Structural)]
pub enum ActivationState {
    Inactive,
    Active,
    Failed,
}

/// The child side of the protocol: reconstructs the profile inside the new
/// process and installs the irreversible restriction before any
/// attacker-reachable code runs.
pub struct ChildSandbox {
    profile: Profile,
    state: ActivationState,
}

impl ChildSandbox {
    /// The operations granted to this child.
    pub closed spec fn granted(&self) -> Seq<OperationView> {
        self.profile@
    }

    /// Where the child stands in the activation state machine.
    pub closed spec fn activation(&self) -> ActivationState {
        self.state
    }

    /// A child-side sandbox for one profile, not yet activated.
    pub fn new(profile: Profile) -> (cs: ChildSandbox)
        ensures
            cs.granted() == profile@,
            cs.activation() == ActivationState::Inactive,
    {
        ChildSandbox { profile, state: ActivationState::Inactive }
    }

    /// The profile this child runs under.
    pub fn profile(&self) -> (r: &Profile)
        ensures
            r@ == self.granted(),
    {
        &self.profile
    }

    /// Where the child stands in the activation state machine; in
    /// particular, `Inactive` is distinguishable from a failed activation.
    pub fn activation_state(&self) -> (r: ActivationState)
        ensures
            r == self.activation(),
    {
        self.state
    }

    /// Installs the profile's restriction, moving to a terminal state:
    /// `Active` on success, `Failed` on failure, never back to `Inactive`.
    /// Meant to be called exactly once, as early as possible after process
    /// start. This build's backend has nothing to install — every
    /// cross-platform operation is classified a no-op grant here — so
    /// activation always succeeds.
    pub fn activate(&mut self) -> (r: Result<(), SandboxError>)
        requires
            old(self).activation() == ActivationState::Inactive,
        ensures
            final(self).granted() == old(self).granted(),
            r is Ok <==> final(self).activation() == ActivationState::Active,
            r is Err <==> final(self).activation() == ActivationState::Failed,
            r is Ok,
    {
        self.state = ActivationState::Active;
        Ok(())
    }

    /// The decision the installed policy makes for one concrete request by
    /// this child: permitted exactly when some granted operation covers it.
    pub fn permits(&self, req: &Request) -> (r: bool)
        requires
            self.activation() == ActivationState::Active,
        ensures
            r == profile_allows(self.granted(), req@),
    {
        self.profile.allows(req)
    }
}

} // verus!
