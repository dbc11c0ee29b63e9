use seguro::commands::{exists_vault_code, first_action, next_action, vault_state, vault_state_code, Action, Command, Step, VaultState};

fn run(cmd: Command, outcomes: &[bool]) -> (Vec<Step>, Action) {
    let mut steps = Vec::new();
    let mut a = first_action(cmd);
    for &ok in outcomes {
        match a {
            Action::Run(s) => {
                steps.push(s);
                a = next_action(cmd, s, ok);
            }
            _ => break,
        }
    }
    (steps, a)
}

#[test]
fn state_codes() {
    assert_eq!(vault_state(true), VaultState::Closed);
    assert_eq!(vault_state(false), VaultState::Open);
    assert_eq!(vault_state_code(VaultState::Closed), 0);
    assert_eq!(vault_state_code(VaultState::Open), 1);
    assert_eq!(exists_vault_code(true), 0);
    assert_eq!(exists_vault_code(false), 1);
}

#[test]
fn create_succeeds() {
    let (steps, a) = run(Command::CreateVault, &[true; 7]);
    assert_eq!(
        steps,
        vec![Step::MakeConfigDir, Step::WriteVaultName, Step::LoadSettings, Step::SavePassword, Step::FindDesktop, Step::CreateDirectory, Step::WipePassword]
    );
    assert_eq!(a, Action::Return(0));
}

#[test]
fn create_failures() {
    assert_eq!(run(Command::CreateVault, &[true, true, true, false]).1, Action::Return(2));
    assert_eq!(run(Command::CreateVault, &[true, true, true, true, false]).1, Action::Return(2));
    assert_eq!(run(Command::CreateVault, &[true, true, true, true, true, false]).1, Action::Return(1));
    assert_eq!(run(Command::CreateVault, &[false]).1, Action::Abort);
    assert_eq!(run(Command::CreateVault, &[true, false]).1, Action::Abort);
}

#[test]
fn close_succeeds_and_seals_before_deleting() {
    let (steps, a) = run(Command::CloseVault, &[true; 8]);
    assert_eq!(
        steps,
        vec![
            Step::LoadSettings,
            Step::CheckPassword,
            Step::Zip,
            Step::Encrypt,
            Step::Backup,
            Step::RemoveArchive,
            Step::RemoveDirectory,
            Step::WipePassword
        ]
    );
    assert_eq!(a, Action::Return(0));
}

#[test]
fn close_with_wrong_password() {
    let (steps, a) = run(Command::CloseVault, &[true, false, true, true]);
    assert_eq!(steps, vec![Step::LoadSettings, Step::CheckPassword]);
    assert_eq!(a, Action::Return(1));
}

#[test]
fn close_aborts_when_sealing_fails() {
    let (steps, a) = run(Command::CloseVault, &[true, true, true, false]);
    assert_eq!(steps, vec![Step::LoadSettings, Step::CheckPassword, Step::Zip, Step::Encrypt]);
    assert_eq!(a, Action::Abort);
}

#[test]
fn open_succeeds() {
    let (steps, a) = run(Command::OpenVault, &[true; 7]);
    assert_eq!(
        steps,
        vec![Step::LoadSettings, Step::CheckPassword, Step::Decrypt, Step::Unzip, Step::RemoveArchive, Step::RemoveSealed, Step::WipePassword]
    );
    assert_eq!(a, Action::Return(0));
}

#[test]
fn open_discards_a_failed_opening() {
    let (steps, a) = run(Command::OpenVault, &[true, true, false, true]);
    assert_eq!(steps, vec![Step::LoadSettings, Step::CheckPassword, Step::Decrypt, Step::DiscardArchive]);
    assert_eq!(a, Action::Return(2));
    // nothing was left to discard (the sealed file was missing): still 2
    let (steps, a) = run(Command::OpenVault, &[true, true, false, false]);
    assert_eq!(steps, vec![Step::LoadSettings, Step::CheckPassword, Step::Decrypt, Step::DiscardArchive]);
    assert_eq!(a, Action::Return(2));
}

#[test]
fn open_with_wrong_password() {
    assert_eq!(run(Command::OpenVault, &[true, false]).1, Action::Return(1));
}

#[test]
fn steps_outside_a_plan_abort() {
    assert_eq!(next_action(Command::CreateVault, Step::Zip, true), Action::Abort);
    assert_eq!(next_action(Command::CloseVault, Step::DiscardArchive, true), Action::Abort);
}

#[test]
fn create_makes_the_configuration_first() {
    assert_eq!(first_action(Command::CreateVault), Action::Run(Step::MakeConfigDir));
    assert_eq!(next_action(Command::CreateVault, Step::MakeConfigDir, true), Action::Run(Step::WriteVaultName));
}
