use vstd::prelude::*;

verus! {

/// Whether the vault is unpacked on the desktop or sealed.
#[derive(PartialEq, Eq, Structural, Debug, Clone, Copy)]
pub enum VaultState {
    Open,
    Closed,
}

/// The vault is closed exactly when its sealed file is present.
pub fn vault_state(sealed_file_present: bool) -> (s: VaultState)
    ensures
        s == (if sealed_file_present { VaultState::Closed } else { VaultState::Open }),
{
    if sealed_file_present {
        VaultState::Closed
    } else {
        VaultState::Open
    }
}

/// The answer to the state query: 0 for a closed vault, 1 for an open one.
pub fn vault_state_code(s: VaultState) -> (code: i32)
    ensures
        code == (if s == VaultState::Closed { 0i32 } else { 1i32 }),
{
    match s {
        VaultState::Closed => 0,
        VaultState::Open => 1,
    }
}

/// The answer to the existence query: 0 where a vault name is recorded, 1
/// where none can be read.
pub fn exists_vault_code(name_recorded: bool) -> (code: i32)
    ensures
        code == (if name_recorded { 0i32 } else { 1i32 }),
{
    if name_recorded {
        0
    } else {
        1
    }
}

/// The commands that change the vault.
#[derive(PartialEq, Eq, Structural, Debug, Clone, Copy)]
pub enum Command {
    CreateVault,
    CloseVault,
    OpenVault,
}

/// The outside work that a command has done, one piece at a time. Each
/// reports whether it succeeded.
#[derive(PartialEq, Eq, Structural, Debug, Clone, Copy)]
pub enum Step {
    /// Make the configuration directory where it is not there yet.
    MakeConfigDir,
    /// Record the vault's name in the configuration.
    WriteVaultName,
    /// Make the configuration directory and read the vault's name and files.
    LoadSettings,
    /// Hash the password under a fresh salt and store the record.
    SavePassword,
    /// Find the desktop.
    FindDesktop,
    /// Make the vault's directory on the desktop.
    CreateDirectory,
    /// Check the password against the stored record.
    CheckPassword,
    /// Zip the vault's directory into its archive.
    Zip,
    /// Seal the archive into the sealed file.
    Encrypt,
    /// Copy the archive to the backup beside the vault.
    Backup,
    /// Delete the archive.
    RemoveArchive,
    /// Delete the vault's directory.
    RemoveDirectory,
    /// Open the sealed file into the archive.
    Decrypt,
    /// Delete what opening the sealed file left behind, where it left anything.
    DiscardArchive,
    /// Unzip the archive into the vault's directory.
    Unzip,
    /// Delete the sealed file.
    RemoveSealed,
    /// Overwrite the password in memory.
    WipePassword,
}

/// What a command does next.
#[derive(PartialEq, Eq, Structural, Debug, Clone, Copy)]
pub enum Action {
    /// Do this piece of work and report how it went.
    Run(Step),
    /// Stop and answer this code.
    Return(i32),
    /// Stop by panicking.
    Abort,
}

/// The work of a command when every piece succeeds, in order.
pub open spec fn plan(cmd: Command) -> Seq<Step> {
    match cmd {
        Command::CreateVault => seq![
            Step::MakeConfigDir,
            Step::WriteVaultName,
            Step::LoadSettings,
            Step::SavePassword,
            Step::FindDesktop,
            Step::CreateDirectory,
            Step::WipePassword,
        ],
        Command::CloseVault => seq![
            Step::LoadSettings,
            Step::CheckPassword,
            Step::Zip,
            Step::Encrypt,
            Step::Backup,
            Step::RemoveArchive,
            Step::RemoveDirectory,
            Step::WipePassword,
        ],
        Command::OpenVault => seq![
            Step::LoadSettings,
            Step::CheckPassword,
            Step::Decrypt,
            Step::Unzip,
            Step::RemoveArchive,
            Step::RemoveSealed,
            Step::WipePassword,
        ],
    }
}

/// Where `step` stands in the plan of `cmd`; -1 where it is not part of it.
pub open spec fn plan_position(cmd: Command, step: Step) -> int {
    match cmd {
        Command::CreateVault => match step {
            Step::MakeConfigDir => 0,
            Step::WriteVaultName => 1,
            Step::LoadSettings => 2,
            Step::SavePassword => 3,
            Step::FindDesktop => 4,
            Step::CreateDirectory => 5,
            Step::WipePassword => 6,
            _ => -1,
        },
        Command::CloseVault => match step {
            Step::LoadSettings => 0,
            Step::CheckPassword => 1,
            Step::Zip => 2,
            Step::Encrypt => 3,
            Step::Backup => 4,
            Step::RemoveArchive => 5,
            Step::RemoveDirectory => 6,
            Step::WipePassword => 7,
            _ => -1,
        },
        Command::OpenVault => match step {
            Step::LoadSettings => 0,
            Step::CheckPassword => 1,
            Step::Decrypt => 2,
            Step::Unzip => 3,
            Step::RemoveArchive => 4,
            Step::RemoveSealed => 5,
            Step::WipePassword => 6,
            _ => -1,
        },
    }
}

/// How a command answers the failure of a step of its plan: a refused
/// password answers 1; creating answers 2 where the password cannot be
/// stored or there is no desktop, and 1 where the directory cannot be made;
/// a failed opening of the sealed file discards what it left; anything else
/// panics.
pub open spec fn on_failure(cmd: Command, step: Step) -> Action {
    match cmd {
        Command::CreateVault => match step {
            Step::SavePassword => Action::Return(2),
            Step::FindDesktop => Action::Return(2),
            Step::CreateDirectory => Action::Return(1),
            _ => Action::Abort,
        },
        Command::CloseVault => match step {
            Step::CheckPassword => Action::Return(1),
            _ => Action::Abort,
        },
        Command::OpenVault => match step {
            Step::CheckPassword => Action::Return(1),
            Step::Decrypt => Action::Run(Step::DiscardArchive),
            _ => Action::Abort,
        },
    }
}

/// What follows `step` of `cmd` having succeeded (`ok`) or failed: the next
/// step of the plan, 0 after the plan's last step, the answer to a failure;
/// after discarding a failed opening, 2 in any case (a failed opening may
/// have left nothing to discard).
pub open spec fn next_spec(cmd: Command, step: Step, ok: bool) -> Action {
    if cmd == Command::OpenVault && step == Step::DiscardArchive {
        Action::Return(2)
    } else if plan_position(cmd, step) < 0 {
        Action::Abort
    } else if !ok {
        on_failure(cmd, step)
    } else if plan_position(cmd, step) + 1 < plan(cmd).len() {
        Action::Run(plan(cmd)[plan_position(cmd, step) + 1])
    } else {
        Action::Return(0)
    }
}

/// The first thing a command does: the first step of its plan.
pub fn first_action(cmd: Command) -> (a: Action)
    ensures
        a == Action::Run(plan(cmd)[0]),
{
    match cmd {
        Command::CreateVault => Action::Run(Step::MakeConfigDir),
        Command::CloseVault => Action::Run(Step::LoadSettings),
        Command::OpenVault => Action::Run(Step::LoadSettings),
    }
}

/// What a command does after `step` succeeded (`ok`) or failed.
pub fn next_action(cmd: Command, step: Step, ok: bool) -> (a: Action)
    ensures
        a == next_spec(cmd, step, ok),
{
    match cmd {
        Command::CreateVault => match step {
            Step::MakeConfigDir => if ok { Action::Run(Step::WriteVaultName) } else { Action::Abort },
            Step::WriteVaultName => if ok { Action::Run(Step::LoadSettings) } else { Action::Abort },
            Step::LoadSettings => if ok { Action::Run(Step::SavePassword) } else { Action::Abort },
            Step::SavePassword => if ok { Action::Run(Step::FindDesktop) } else { Action::Return(2) },
            Step::FindDesktop => if ok { Action::Run(Step::CreateDirectory) } else { Action::Return(2) },
            Step::CreateDirectory => if ok { Action::Run(Step::WipePassword) } else { Action::Return(1) },
            Step::WipePassword => if ok { Action::Return(0) } else { Action::Abort },
            _ => Action::Abort,
        },
        Command::CloseVault => match step {
            Step::LoadSettings => if ok { Action::Run(Step::CheckPassword) } else { Action::Abort },
            Step::CheckPassword => if ok { Action::Run(Step::Zip) } else { Action::Return(1) },
            Step::Zip => if ok { Action::Run(Step::Encrypt) } else { Action::Abort },
            Step::Encrypt => if ok { Action::Run(Step::Backup) } else { Action::Abort },
            Step::Backup => if ok { Action::Run(Step::RemoveArchive) } else { Action::Abort },
            Step::RemoveArchive => if ok { Action::Run(Step::RemoveDirectory) } else { Action::Abort },
            Step::RemoveDirectory => if ok { Action::Run(Step::WipePassword) } else { Action::Abort },
            Step::WipePassword => if ok { Action::Return(0) } else { Action::Abort },
            _ => Action::Abort,
        },
        Command::OpenVault => match step {
            Step::LoadSettings => if ok { Action::Run(Step::CheckPassword) } else { Action::Abort },
            Step::CheckPassword => if ok { Action::Run(Step::Decrypt) } else { Action::Return(1) },
            Step::Decrypt => if ok { Action::Run(Step::Unzip) } else { Action::Run(Step::DiscardArchive) },
            Step::DiscardArchive => Action::Return(2),
            Step::Unzip => if ok { Action::Run(Step::RemoveArchive) } else { Action::Abort },
            Step::RemoveArchive => if ok { Action::Run(Step::RemoveSealed) } else { Action::Abort },
            Step::RemoveSealed => if ok { Action::Run(Step::WipePassword) } else { Action::Abort },
            Step::WipePassword => if ok { Action::Return(0) } else { Action::Abort },
            _ => Action::Abort,
        },
    }
}


/// The steps a command runs from `a` on, each with how it went, when the
/// steps it runs report `outcomes` in turn.
pub open spec fn trace_from(cmd: Command, a: Action, outcomes: Seq<bool>) -> Seq<(Step, bool)>
    decreases outcomes.len(),
{
    match a {
        Action::Run(s) => if outcomes.len() == 0 {
            Seq::empty()
        } else {
            seq![(s, outcomes[0])] + trace_from(cmd, next_spec(cmd, s, outcomes[0]), outcomes.drop_first())
        },
        _ => Seq::empty(),
    }
}

/// What a command does once the steps it ran from `a` on have reported
/// `outcomes`.
pub open spec fn answer_from(cmd: Command, a: Action, outcomes: Seq<bool>) -> Action
    decreases outcomes.len(),
{
    match a {
        Action::Run(s) => if outcomes.len() == 0 {
            a
        } else {
            answer_from(cmd, next_spec(cmd, s, outcomes[0]), outcomes.drop_first())
        },
        _ => a,
    }
}

/// The steps a whole command runs when they report `outcomes` in turn.
pub open spec fn trace(cmd: Command, outcomes: Seq<bool>) -> Seq<(Step, bool)> {
    trace_from(cmd, Action::Run(plan(cmd)[0]), outcomes)
}

/// What a whole command does once its steps have reported `outcomes`.
pub open spec fn answer(cmd: Command, outcomes: Seq<bool>) -> Action {
    answer_from(cmd, Action::Run(plan(cmd)[0]), outcomes)
}

proof fn lemma_plan_position(cmd: Command, p: int)
    requires
        0 <= p < plan(cmd).len(),
    ensures
        plan_position(cmd, plan(cmd)[p]) == p,
        plan(cmd)[p] != Step::DiscardArchive,
        on_failure(cmd, plan(cmd)[p]) is Run ==> cmd == Command::OpenVault && plan(cmd)[p] == Step::Decrypt,
        on_failure(cmd, plan(cmd)[p]) matches Action::Run(s) ==> s == Step::DiscardArchive,
{
}

/// A run from step `p` of the plan follows the plan while its steps succeed.
proof fn lemma_trace_from_plan(cmd: Command, p: int, outcomes: Seq<bool>)
    requires
        0 <= p < plan(cmd).len(),
    ensures
        ({
            let t = trace_from(cmd, Action::Run(plan(cmd)[p]), outcomes);
            &&& forall|j: int|
                0 <= j < t.len() && (#[trigger] t[j]).0 != Step::DiscardArchive ==> {
                    &&& p + j < plan(cmd).len()
                    &&& t[j].0 == plan(cmd)[p + j]
                    &&& forall|i: int| 0 <= i < j ==> (#[trigger] t[i]).1
                }
            &&& forall|j: int|
                0 <= j < t.len() && (#[trigger] t[j]).0 == Step::DiscardArchive ==> {
                    &&& j >= 1
                    &&& t[j - 1] == (Step::Decrypt, false)
                    &&& cmd == Command::OpenVault
                }
            &&& answer_from(cmd, Action::Run(plan(cmd)[p]), outcomes) == Action::Return(0) ==> {
                &&& t.len() == plan(cmd).len() - p
                &&& forall|i: int| 0 <= i < t.len() ==> #[trigger] t[i] == (plan(cmd)[p + i], true)
            }
        }),
    decreases outcomes.len(),
{
    let s = plan(cmd)[p];
    let t = trace_from(cmd, Action::Run(s), outcomes);
    lemma_plan_position(cmd, p);
    if outcomes.len() == 0 {
        return;
    }
    let o = outcomes[0];
    let rest_outcomes = outcomes.drop_first();
    let next = next_spec(cmd, s, o);
    let rest = trace_from(cmd, next, rest_outcomes);
    assert(t == seq![(s, o)] + rest);
    assert(answer_from(cmd, Action::Run(s), outcomes) == answer_from(cmd, next, rest_outcomes));
    if o && p + 1 < plan(cmd).len() {
        assert(next == Action::Run(plan(cmd)[p + 1]));
        lemma_trace_from_plan(cmd, p + 1, rest_outcomes);
        assert forall|j: int|
            0 <= j < t.len() && (#[trigger] t[j]).0 != Step::DiscardArchive implies {
                &&& p + j < plan(cmd).len()
                &&& t[j].0 == plan(cmd)[p + j]
                &&& forall|i: int| 0 <= i < j ==> (#[trigger] t[i]).1
            } by {
            if j > 0 {
                assert(t[j] == rest[j - 1]);
                assert forall|i: int| 0 <= i < j implies (#[trigger] t[i]).1 by {
                    if i > 0 {
                        assert(t[i] == rest[i - 1]);
                    }
                }
            }
        }
        assert forall|j: int|
            0 <= j < t.len() && (#[trigger] t[j]).0 == Step::DiscardArchive implies {
                &&& j >= 1
                &&& t[j - 1] == (Step::Decrypt, false)
                &&& cmd == Command::OpenVault
            } by {
            assert(t[j] == rest[j - 1]);
            if j >= 2 {
                assert(t[j - 1] == rest[j - 2]);
            } else {
                assert(rest[0].0 != Step::DiscardArchive);
            }
        }
        if answer_from(cmd, Action::Run(s), outcomes) == Action::Return(0) {
            assert forall|i: int| 0 <= i < t.len() implies #[trigger] t[i] == (plan(cmd)[p + i], true) by {
                if i > 0 {
                    assert(t[i] == rest[i - 1]);
                }
            }
        }
    } else if o {
        assert(next == Action::Return(0));
        assert(rest == Seq::<(Step, bool)>::empty());
        assert(t.len() == 1);
    } else {
        assert(next == on_failure(cmd, s));
        if next is Run {
            assert(cmd == Command::OpenVault && s == Step::Decrypt);
            assert(next == Action::Run(Step::DiscardArchive));
            if rest_outcomes.len() > 0 {
                let after = next_spec(cmd, Step::DiscardArchive, rest_outcomes[0]);
                assert(after is Return || after is Abort);
                assert(trace_from(cmd, after, rest_outcomes.drop_first()) == Seq::<(Step, bool)>::empty());
                assert(rest == seq![(Step::DiscardArchive, rest_outcomes[0])]);
                assert(answer_from(cmd, next, rest_outcomes) == answer_from(cmd, after, rest_outcomes.drop_first()));
                assert(answer_from(cmd, Action::Run(s), outcomes) == after);
            } else {
                assert(rest == Seq::<(Step, bool)>::empty());
            }
        } else {
            assert(rest == Seq::<(Step, bool)>::empty());
        }
    }
}

/// Every step a command runs, but the clean-up after a failed opening, is
/// the step its plan has at that place, and runs only after every earlier
/// step succeeded; that clean-up runs only right after the sealed file failed
/// to open; and a command answers 0 only after its whole plan ran and
/// every step of it succeeded.
pub proof fn lemma_runs_follow_plan(cmd: Command, outcomes: Seq<bool>)
    ensures
        ({
            let t = trace(cmd, outcomes);
            &&& forall|j: int|
                0 <= j < t.len() && (#[trigger] t[j]).0 != Step::DiscardArchive ==> {
                    &&& j < plan(cmd).len()
                    &&& t[j].0 == plan(cmd)[j]
                    &&& forall|i: int| 0 <= i < j ==> (#[trigger] t[i]).1
                }
            &&& forall|j: int|
                0 <= j < t.len() && (#[trigger] t[j]).0 == Step::DiscardArchive ==> {
                    &&& j >= 1
                    &&& t[j - 1] == (Step::Decrypt, false)
                    &&& cmd == Command::OpenVault
                }
            &&& answer(cmd, outcomes) == Action::Return(0) ==> {
                &&& t.len() == plan(cmd).len()
                &&& forall|i: int| 0 <= i < t.len() ==> #[trigger] t[i] == (plan(cmd)[i], true)
            }
        }),
{
    lemma_trace_from_plan(cmd, 0, outcomes);
}

/// Closing deletes the vault's directory only after the sealed file was
/// written.
pub proof fn lemma_close_seals_before_deleting(outcomes: Seq<bool>, j: int)
    requires
        0 <= j < trace(Command::CloseVault, outcomes).len(),
        trace(Command::CloseVault, outcomes)[j].0 == Step::RemoveDirectory,
    ensures
        exists|i: int| 0 <= i < j && trace(Command::CloseVault, outcomes)[i] == (Step::Encrypt, true),
{
    let t = trace(Command::CloseVault, outcomes);
    lemma_runs_follow_plan(Command::CloseVault, outcomes);
    assert(t[j].0 == plan(Command::CloseVault)[j]);
    assert(j == 6);
    assert(t[3].0 != Step::DiscardArchive ==> t[3].0 == plan(Command::CloseVault)[3]);
    assert(t[3].1);
    assert(t[3] == (Step::Encrypt, true));
}

/// Opening deletes the sealed file only after the vault was opened and
/// unpacked.
pub proof fn lemma_open_unpacks_before_deleting(outcomes: Seq<bool>, j: int)
    requires
        0 <= j < trace(Command::OpenVault, outcomes).len(),
        trace(Command::OpenVault, outcomes)[j].0 == Step::RemoveSealed,
    ensures
        exists|i: int| 0 <= i < j && trace(Command::OpenVault, outcomes)[i] == (Step::Decrypt, true),
        exists|i: int| 0 <= i < j && trace(Command::OpenVault, outcomes)[i] == (Step::Unzip, true),
{
    let t = trace(Command::OpenVault, outcomes);
    lemma_runs_follow_plan(Command::OpenVault, outcomes);
    assert(t[j].0 == plan(Command::OpenVault)[j]);
    assert(j == 5);
    if t[2].0 == Step::DiscardArchive {
        assert(t[1] == (Step::Decrypt, false));
        assert(t[1].0 == plan(Command::OpenVault)[1]);
    }
    assert(t[2].1);
    assert(t[2] == (Step::Decrypt, true));
    if t[3].0 == Step::DiscardArchive {
        assert(t[2] == (Step::Decrypt, false));
    }
    assert(t[3].1);
    assert(t[3] == (Step::Unzip, true));
}

/// Creating makes the configuration directory first, and records the
/// vault's name only after that succeeded.
pub proof fn lemma_create_makes_config_first(outcomes: Seq<bool>, j: int)
    requires
        0 <= j < trace(Command::CreateVault, outcomes).len(),
        trace(Command::CreateVault, outcomes)[j].0 == Step::WriteVaultName,
    ensures
        trace(Command::CreateVault, outcomes)[0] == (Step::MakeConfigDir, true),
        j == 1,
{
    let t = trace(Command::CreateVault, outcomes);
    lemma_runs_follow_plan(Command::CreateVault, outcomes);
    assert(t[j].0 == plan(Command::CreateVault)[j]);
    assert(j == 1);
    assert(t[0].0 != Step::DiscardArchive);
    assert(t[0].0 == plan(Command::CreateVault)[0]);
    assert(t[0].1);
}

/// A failed opening of the sealed file always ends with the answer 2, once
/// its clean-up ran, whether or not there was anything to clean up.
pub proof fn lemma_failed_opening_answers_two(outcomes: Seq<bool>)
    requires
        outcomes.len() >= 4,
        outcomes[0],
        outcomes[1],
        !outcomes[2],
    ensures
        trace(Command::OpenVault, outcomes) == seq![
            (Step::LoadSettings, true),
            (Step::CheckPassword, true),
            (Step::Decrypt, false),
            (Step::DiscardArchive, outcomes[3]),
        ],
        answer(Command::OpenVault, outcomes) == Action::Return(2),
{
    let cmd = Command::OpenVault;
    let o1 = outcomes.drop_first();
    let o2 = o1.drop_first();
    let o3 = o2.drop_first();
    let o4 = o3.drop_first();
    assert(o1[0] == outcomes[1] && o2[0] == outcomes[2] && o3[0] == outcomes[3]);
    assert(next_spec(cmd, Step::LoadSettings, true) == Action::Run(Step::CheckPassword));
    assert(next_spec(cmd, Step::CheckPassword, true) == Action::Run(Step::Decrypt));
    assert(next_spec(cmd, Step::Decrypt, false) == Action::Run(Step::DiscardArchive));
    assert(next_spec(cmd, Step::DiscardArchive, outcomes[3]) == Action::Return(2));
    assert(trace_from(cmd, Action::Return(2), o4) == Seq::<(Step, bool)>::empty());
    assert(trace_from(cmd, Action::Run(Step::DiscardArchive), o3) =~= seq![(Step::DiscardArchive, outcomes[3])]);
    assert(trace_from(cmd, Action::Run(Step::Decrypt), o2) =~= seq![(Step::Decrypt, false), (Step::DiscardArchive, outcomes[3])]);
    assert(trace_from(cmd, Action::Run(Step::CheckPassword), o1) =~= seq![(Step::CheckPassword, true), (Step::Decrypt, false), (Step::DiscardArchive, outcomes[3])]);
    assert(trace(cmd, outcomes) =~= seq![
        (Step::LoadSettings, true),
        (Step::CheckPassword, true),
        (Step::Decrypt, false),
        (Step::DiscardArchive, outcomes[3]),
    ]);
    assert(answer_from(cmd, Action::Run(Step::DiscardArchive), o3) == answer_from(cmd, Action::Return(2), o4));
    assert(answer_from(cmd, Action::Run(Step::Decrypt), o2) == answer_from(cmd, Action::Run(Step::DiscardArchive), o3));
    assert(answer_from(cmd, Action::Run(Step::CheckPassword), o1) == answer_from(cmd, Action::Run(Step::Decrypt), o2));
    assert(answer(cmd, outcomes) == answer_from(cmd, Action::Run(Step::CheckPassword), o1));
}

/// A refused password ends closing and opening at once with the answer 1.
pub proof fn lemma_refused_password(cmd: Command, outcomes: Seq<bool>)
    requires
        cmd == Command::CloseVault || cmd == Command::OpenVault,
        outcomes.len() >= 2,
        outcomes[0],
        !outcomes[1],
    ensures
        trace(cmd, outcomes) == seq![(Step::LoadSettings, true), (Step::CheckPassword, false)],
        answer(cmd, outcomes) == Action::Return(1),
{
    let o1 = outcomes.drop_first();
    let o2 = o1.drop_first();
    assert(next_spec(cmd, Step::LoadSettings, true) == Action::Run(Step::CheckPassword));
    assert(next_spec(cmd, Step::CheckPassword, false) == Action::Return(1));
    assert(trace_from(cmd, Action::Return(1), o2) == Seq::<(Step, bool)>::empty());
    assert(trace_from(cmd, Action::Run(Step::CheckPassword), o1) =~= seq![(Step::CheckPassword, false)]);
    assert(trace(cmd, outcomes) =~= seq![(Step::LoadSettings, true), (Step::CheckPassword, false)]);
    assert(answer_from(cmd, Action::Run(Step::CheckPassword), o1) == answer_from(cmd, Action::Return(1), o2));
    assert(answer(cmd, outcomes) == answer_from(cmd, Action::Run(Step::CheckPassword), o1));
}


/// What a run from `a` does once its steps have reported is what follows the
/// last step it ran, as that step reported; a run that ran nothing does `a`.
proof fn lemma_answer_follows_last_step(cmd: Command, a: Action, outcomes: Seq<bool>)
    ensures
        ({
            let t = trace_from(cmd, a, outcomes);
            let ans = answer_from(cmd, a, outcomes);
            &&& t.len() == 0 ==> ans == a
            &&& t.len() > 0 ==> ans == next_spec(cmd, t.last().0, t.last().1)
            &&& t.len() <= outcomes.len()
        }),
    decreases outcomes.len(),
{
    if let Action::Run(s) = a {
        if outcomes.len() > 0 {
            let o = outcomes[0];
            let next = next_spec(cmd, s, o);
            let rest = outcomes.drop_first();
            lemma_answer_follows_last_step(cmd, next, rest);
            let t2 = trace_from(cmd, next, rest);
            let t = trace_from(cmd, a, outcomes);
            assert(t == seq![(s, o)] + t2);
            assert(answer_from(cmd, a, outcomes) == answer_from(cmd, next, rest));
            if t2.len() > 0 {
                assert(t.last() == t2.last());
            } else {
                assert(t.last() == (s, o));
            }
        }
    }
}

/// What each answer of a command means, whatever its steps reported:
/// - 1 only right after the password check failed (closing, opening), or
///   right after the vault's directory could not be made (creating);
/// - 2 only right after the password could not be stored or there was no
///   desktop (creating), or right after the clean-up of a failed opening
///   that itself followed the failed opening (opening);
/// - 0 only after the whole plan ran and succeeded;
/// - a failure of any other step aborts the command: closing aborts on every
///   failure but the password check.
pub proof fn lemma_answer_codes(cmd: Command, outcomes: Seq<bool>)
    ensures
        ({
            let t = trace(cmd, outcomes);
            let ans = answer(cmd, outcomes);
            &&& ans == Action::Return(1) ==> t.len() > 0 && !t.last().1 && (if cmd == Command::CreateVault {
                t.last().0 == Step::CreateDirectory
            } else {
                t.last().0 == Step::CheckPassword
            })
            &&& ans == Action::Return(2) ==> t.len() > 0 && (if cmd == Command::OpenVault {
                t.len() >= 2 && t.last().0 == Step::DiscardArchive && t[t.len() - 2] == (Step::Decrypt, false)
            } else {
                cmd == Command::CreateVault && !t.last().1 && (t.last().0 == Step::SavePassword || t.last().0 == Step::FindDesktop)
            })
            &&& ans == Action::Return(0) ==> t.len() == plan(cmd).len() && forall|i: int|
                0 <= i < t.len() ==> #[trigger] t[i] == (plan(cmd)[i], true)
            &&& ans is Return ==> ans == Action::Return(0) || ans == Action::Return(1) || ans == Action::Return(2)
            &&& (cmd == Command::CloseVault && t.len() > 0 && !t.last().1 && t.last().0 != Step::CheckPassword)
                ==> ans == Action::Abort
        }),
{
    let t = trace(cmd, outcomes);
    let ans = answer(cmd, outcomes);
    lemma_runs_follow_plan(cmd, outcomes);
    lemma_answer_follows_last_step(cmd, Action::Run(plan(cmd)[0]), outcomes);
    if t.len() > 0 {
        let j = t.len() - 1;
        assert(t[j] == t.last());
        if t.last().0 == Step::DiscardArchive {
            assert(t[j - 1] == (Step::Decrypt, false));
        } else {
            assert(t.last().0 == plan(cmd)[j]);
        }
        // a failed step stops the run, so the last failure is the last step
        if cmd == Command::CloseVault && !t.last().1 && t.last().0 != Step::CheckPassword {
            assert(next_spec(cmd, t.last().0, false) == Action::Abort);
        }
    }
}

} // verus!
