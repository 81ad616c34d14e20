use klyx_extension::capability_granter::CapabilityGrantError;
use klyx_extension::extension::{
    KeyValueInsertError, Manifest, ProcessError, ReadTextFileError, SettingsImportError,
};
use klyx_extension::github::{GithubRelease, GithubReleaseAsset, guest_release};
use klyx_extension::http_client::{RedirectPolicy, collapse_headers};
use klyx_extension::paths::PathStyle;
use klyx_extension::rel_path::RelPathError;
use klyx_extension::types::{Command, should_redact};
use klyx_extension::wasm_host::{
    ActorError, ActorQueue, ActorState, Architecture, Extension, ExtensionLoadError,
    GovernedCall, GovernedOperation, GrantOutcome, IncrementalCompilationCache, Os,
    PlatformError, TickerAction, after_load, current_platform, entry_weight, extension_error,
    lift_result, npm_install_request, preopened_aliases, sandbox_env, ticker_action,
    worktree_text_file_path,
};
use klyx_extension::{ResourceTableFailure, Version, WasmRuntimeError};

fn manifest() -> Manifest {
    Manifest {
        id: "ext1".to_string(),
        name: "Example".to_string(),
        version: "0.2.0".to_string(),
        description: None,
        repository: None,
    }
}

#[test]
fn abi_gate_by_version() {
    let v = |major, minor, patch| Version { major, minor, patch };
    assert!(matches!(
        Extension::select(v(1, 3, 5)),
        Err(ExtensionLoadError::UnsupportedVersion { version }) if version == v(1, 3, 5)
    ));
    assert!(matches!(Extension::select(v(1, 3, 6)), Ok(Extension::V1_3_6)));
    assert!(matches!(Extension::select(v(1, 4, 0)), Ok(Extension::V1_3_6)));
    assert!(matches!(Extension::select(v(0, 9, 9)), Err(_)));
    assert!(matches!(Extension::select(v(2, 0, 0)), Ok(Extension::V1_3_6)));
    assert_eq!(Extension::V1_3_6.min_version(), v(1, 3, 6));
}

#[test]
fn collaborator_errors_name_the_extension() {
    let m = manifest();
    assert_eq!(extension_error(&m, "boom"), "from extension \"Example\" version 0.2.0: boom");
    assert_eq!(lift_result::<u8>(&m, Ok(3)), Ok(3));
    assert_eq!(
        lift_result::<u8>(&m, Err("no".to_string())),
        Err("from extension \"Example\" version 0.2.0: no".to_string())
    );
}

#[test]
fn denied_command_is_never_run() {
    let m = manifest();
    let op = GovernedOperation::RunCommand {
        command: "rm".to_string(),
        args: vec!["-rf".to_string(), "/".to_string()],
    };
    let mut call = GovernedCall::start(op);
    call.ask_policy();
    match call.operation() {
        GovernedOperation::RunCommand { command, args } => {
            assert_eq!(command, "rm");
            assert_eq!(args, &vec!["-rf".to_string(), "/".to_string()]);
        }
        _ => panic!("operation changed"),
    }
    let outcome = call.on_grant(Err(CapabilityGrantError::Inner("rm is not allowed".to_string())), &m);
    match outcome {
        GrantOutcome::Deny(msg) => {
            assert!(msg.starts_with("from extension \"Example\" version 0.2.0:"));
            assert!(msg.ends_with("rm is not allowed"));
        }
        GrantOutcome::Proceed => panic!("denied command proceeded"),
    }
}

#[test]
fn granted_download_reaches_the_collaborator() {
    let m = manifest();
    let mut call = GovernedCall::start(GovernedOperation::DownloadFile { url: "https://x".to_string() });
    call.ask_policy();
    assert!(matches!(call.on_grant(Ok(()), &m), GrantOutcome::Proceed));
    let r = call.on_collaborator_result::<()>(Err("404".to_string()), &m);
    assert_eq!(r, Err("from extension \"Example\" version 0.2.0: 404".to_string()));
}

#[test]
fn platform_names() {
    assert_eq!(current_platform("linux", "x86_64"), Ok((Os::Linux, Architecture::X8664)));
    assert_eq!(current_platform("macos", "aarch64"), Ok((Os::Mac, Architecture::Aarch64)));
    assert_eq!(current_platform("ios", "x86"), Ok((Os::Ios, Architecture::X86)));
    assert_eq!(current_platform("freebsd", "x86_64"), Err(PlatformError::UnsupportedOs));
    assert_eq!(current_platform("windows", "riscv64"), Err(PlatformError::UnsupportedArchitecture));
}

#[test]
fn sandbox_environment() {
    let env = sandbox_env("C:\\work\\ext1", PathStyle::Windows);
    assert_eq!(env[0], ("PWD".to_string(), "C:/work/ext1".to_string()));
    assert_eq!(env[1], ("RUST_BACKTRACE".to_string(), "full".to_string()));
    let env = sandbox_env("/work/ext1", PathStyle::Posix);
    assert_eq!(env[0].1, "/work/ext1");
    assert_eq!(preopened_aliases("/work/ext1", PathStyle::Posix), vec![".".to_string(), "/work/ext1".to_string()]);
    assert_eq!(npm_install_request(&"lsp".to_string(), &"1.0.0".to_string()), vec![("lsp".to_string(), "1.0.0".to_string())]);
}

#[test]
fn worktree_paths_are_normalized() {
    assert_eq!(worktree_text_file_path("./src/../Cargo.toml").unwrap(), "Cargo.toml");
    assert_eq!(worktree_text_file_path("../x"), Err(RelPathError::EscapesRoot));
    assert_eq!(worktree_text_file_path("/etc/passwd"), Err(RelPathError::Absolute));
}

#[test]
fn headers_collapse_to_last_write() {
    let list = vec![
        ("a".to_string(), "1".to_string()),
        ("b".to_string(), "2".to_string()),
        ("a".to_string(), "3".to_string()),
    ];
    let h = collapse_headers(&list);
    assert_eq!(h, vec![("a".to_string(), "3".to_string()), ("b".to_string(), "2".to_string())]);
    assert_eq!(RedirectPolicy::default(), RedirectPolicy::NoFollow);
}

#[test]
fn secret_variables_are_redacted() {
    assert!(should_redact("GITHUB_TOKEN"));
    assert!(should_redact("DB_PASSWORD"));
    assert!(should_redact("API_KEY"));
    assert!(!should_redact("PATH"));
    assert!(!should_redact("KEYS_DIR"));
    let c = Command {
        command: "node".to_string(),
        args: vec![],
        env: vec![
            ("API_KEY".to_string(), "SECRET-REDACTED".to_string()),
            ("HOME".to_string(), "/home/u".to_string()),
        ],
    };
    let shown = c.redacted_env();
    assert_eq!(shown[0], ("API_KEY".to_string(), "[REDACTED]".to_string()));
    assert_eq!(shown[1], ("HOME".to_string(), "/home/u".to_string()));
}

#[test]
fn cache_weights_and_lookup() {
    assert_eq!(entry_weight(3, 4), 7);
    assert_eq!(entry_weight(usize::MAX, 1), u32::MAX);
    assert_eq!(entry_weight(u32::MAX as usize, 0), u32::MAX);
    let cache = IncrementalCompilationCache::new();
    assert!(cache.insert(b"key", vec![1, 2, 3]));
    assert_eq!(cache.get(b"key"), Some(vec![1, 2, 3]));
    assert_eq!(cache.get(b"other"), None);
}

#[test]
fn calls_run_in_send_order() {
    let mut q = ActorQueue::new();
    assert_eq!(after_load(true), ActorState::Running);
    assert_eq!(after_load(false), ActorState::Terminated);
    assert!(q.submit(1).is_ok());
    assert!(q.submit(2).is_ok());
    assert!(q.submit(3).is_ok());
    assert_eq!(q.begin_next(), Some(1));
    q.finish_current();
    assert_eq!(q.begin_next(), Some(2));
    assert_eq!(q.state(), ActorState::Running);
    q.close();
    assert_eq!(q.state(), ActorState::Terminating);
    q.finish_current();
    assert_eq!(q.state(), ActorState::Terminated);
    assert_eq!(q.begin_next(), None);
    assert_eq!(q.submit(4), Err(ActorError::ChannelClosed));
}

#[test]
fn ticker_stops_with_the_engine() {
    assert_eq!(ticker_action(true), TickerAction::IncrementEpoch);
    assert_eq!(ticker_action(false), TickerAction::Stop);
}

#[test]
fn releases_in_guest_shape() {
    let r = GithubRelease {
        tag_name: "v1.2".to_string(),
        pre_release: false,
        assets: vec![GithubReleaseAsset {
            name: "tool.zip".to_string(),
            browser_download_url: "https://example.com/tool.zip".to_string(),
            digest: None,
        }],
        tarball_url: String::new(),
        zipball_url: String::new(),
    };
    let g = guest_release(&r);
    assert_eq!(g.version, "v1.2");
    assert_eq!(g.assets[0].name, "tool.zip");
    assert_eq!(g.assets[0].download_url, "https://example.com/tool.zip");
}

#[test]
fn error_texts() {
    assert_eq!(ReadTextFileError::Internal("x".to_string()).message(), "failed to read text file: x");
    assert_eq!(KeyValueInsertError::Internal("y".to_string()).message(), "failed to insert key-value pair: y");
    assert_eq!(ProcessError::Internal("z".to_string()).message(), "failed to run command: z");
    assert_eq!(SettingsImportError::InvalidLocation.message(), "invalid settings location");
    assert_eq!(
        SettingsImportError::UnknownCategory { category: "lsp".to_string() }.message(),
        "unknown settings category: lsp"
    );
    assert_eq!(
        WasmRuntimeError::from_resource_table(ResourceTableFailure::Full).message,
        "ResourceTable has no free keys"
    );
}
