//! The launch-preparation and activation protocol, end to end in one
//! process: the parent prepares the plan, the child reconstructs the
//! profile from the plan's environment and activates, and the installed
//! policy decides the scenario requests.

use gaol::profile::{Address, AddressPattern, Operation, PathPattern, Profile, Request};
use gaol::sandbox::{
    command_line_wide, environment_block_wide, ChildSandbox, Command, Sandbox, SandboxError,
};
use gaol::transport::parse_profile;

fn plain_profile() -> Profile {
    Profile::new(vec![]).unwrap()
}

#[test]
fn prepare_builds_command_line_and_environment() {
    let command = Command::new(String::from("/bin/worker"))
        .arg(String::from("child"))
        .arg(String::from("--fast"))
        .env(String::from("K"), String::from("V"));
    let sandbox = Sandbox::new(plain_profile());
    let plan = sandbox.prepare(command).expect("command is encodable");
    assert_eq!(plan.program, "/bin/worker");
    assert_eq!(plan.args, vec!["child".to_string(), "--fast".to_string()]);
    assert_eq!(plan.command_line, "/bin/worker child --fast");
    assert_eq!(plan.env.len(), 2);
    assert_eq!(plan.env[0], ("K".to_string(), "V".to_string()));
    assert_eq!(plan.env[1], ("GAOL_PROFILE".to_string(), "".to_string()));
    assert_eq!(plan.env_block, "K=V\0GAOL_PROFILE=\0\0");
}

#[test]
fn prepare_rejects_nul_in_argument() {
    let command = Command::new(String::from("/bin/worker")).arg(String::from("a\0b"));
    let sandbox = Sandbox::new(plain_profile());
    assert_eq!(
        sandbox.prepare(command).err(),
        Some(SandboxError::InvalidCommandLine)
    );
}

#[test]
fn prepare_rejects_bad_environment_entries() {
    let sandbox = Sandbox::new(plain_profile());
    let nul_key = Command::new(String::from("p")).env(String::from("A\0"), String::from("v"));
    assert_eq!(
        sandbox.prepare(nul_key).err(),
        Some(SandboxError::InvalidCommandLine)
    );
    let eq_key = Command::new(String::from("p")).env(String::from("A=B"), String::from("v"));
    assert_eq!(
        sandbox.prepare(eq_key).err(),
        Some(SandboxError::InvalidCommandLine)
    );
    let nul_value = Command::new(String::from("p")).env(String::from("A"), String::from("v\0"));
    assert_eq!(
        sandbox.prepare(nul_value).err(),
        Some(SandboxError::InvalidCommandLine)
    );
}

#[test]
fn wide_forms_encode_the_plain_strings() {
    let command = Command::new(String::from("/bin/worker")).arg(String::from("child"));
    let sandbox = Sandbox::new(plain_profile());
    let plan = sandbox.prepare(command).unwrap();
    let wide_line = command_line_wide(&plan);
    assert_eq!(wide_line.to_string().unwrap(), "/bin/worker child");
    assert_eq!(wide_line.len(), plan.command_line.len());
    let wide_block = environment_block_wide(&plan);
    assert_eq!(wide_block.to_string().unwrap(), plan.env_block);
}

#[test]
fn profile_travels_through_the_prepared_environment() {
    let profile = Profile::new(vec![
        Operation::FileReadAll(PathPattern::Literal(b"/data/in".to_vec())),
        Operation::NetworkOutbound(AddressPattern::Tcp(7357)),
    ])
    .unwrap();
    let sandbox = Sandbox::new(profile);
    assert_eq!(sandbox.profile().operations().len(), 2);
    let plan = sandbox
        .prepare(Command::new(String::from("/bin/worker")))
        .unwrap();
    let transported = &plan.env[plan.env.len() - 1];
    assert_eq!(transported.0, "GAOL_PROFILE");
    let rebuilt = parse_profile(&transported.1).expect("transported profile must parse");
    let ops = rebuilt.operations();
    assert_eq!(ops.len(), 2);
    assert!(ops[0].eq_op(&Operation::FileReadAll(PathPattern::Literal(
        b"/data/in".to_vec()
    ))));
    assert!(ops[1].eq_op(&Operation::NetworkOutbound(AddressPattern::Tcp(7357))));
}

#[test]
fn activation_succeeds_once_and_keeps_the_profile() {
    let mut child = ChildSandbox::new(plain_profile());
    assert!(child.activate().is_ok());
    assert_eq!(child.profile().operations().len(), 0);
}

#[test]
fn scenario_allow_literal_file_read() {
    let profile =
        Profile::new(vec![Operation::FileReadAll(PathPattern::Literal(b"/tmp/secret".to_vec()))])
            .unwrap();
    let mut child = ChildSandbox::new(profile);
    child.activate().unwrap();
    assert!(child.permits(&Request::FileRead(b"/tmp/secret".to_vec())));
}

#[test]
fn scenario_deny_by_scope_mismatch() {
    let profile =
        Profile::new(vec![Operation::FileReadAll(PathPattern::Subpath(b"/bogus".to_vec()))])
            .unwrap();
    let mut child = ChildSandbox::new(profile);
    child.activate().unwrap();
    assert!(!child.permits(&Request::FileRead(b"/tmp/secret".to_vec())));
    assert!(child.permits(&Request::FileRead(b"/bogus/anything".to_vec())));
}

#[test]
fn scenario_network_allow_all() {
    let profile = Profile::new(vec![Operation::NetworkOutbound(AddressPattern::All)]).unwrap();
    let mut child = ChildSandbox::new(profile);
    child.activate().unwrap();
    assert!(child.permits(&Request::NetworkConnect(Address::Tcp(7357))));
    assert!(child.permits(&Request::NetworkConnect(Address::Tcp(80))));
}

#[test]
fn scenario_network_deny_under_empty_profile() {
    let mut child = ChildSandbox::new(plain_profile());
    child.activate().unwrap();
    assert!(!child.permits(&Request::NetworkConnect(Address::Tcp(7357))));
    assert!(!child.permits(&Request::FileRead(b"/tmp/anything".to_vec())));
}
