//! Guest machines: backends, the manager, images, keys, seeds and the
//! messages to a hypervisor's socket.

use std::sync::{Arc, Mutex};

use ade::backend::{MockBackend, VmBackend, VmError, VmFault};
use ade::ch::{
    boot_next, build_vm_config, has_shut_down, map_ch_state, resolve_assets, shutdown_wait,
    socket_wait, AssetEnv, AssetStep, BootNext, BootStage, CloudHypervisorBackend, InfoQuery,
    WaitNext, GUEST_CID,
};
use ade::config::{SshInfo, VmConfig, VmHandle, VmState};
use ade::image::{default_cache_dir, verify_sha256, ImageSpec};
use ade::keys::EphemeralKey;
use ade::manager::{EnsureStep, VmManager, VmTimeouts};
use ade::outside::Failure;
use ade::sbx::{listed_state, parse_sbx_ls, ExternalSbxBackend, SshQuery, StateQuery};
use ade::seed::{meta_data, seed_plan, user_data};
use ade::uds::{UdsHttp, UdsResponse};
use ade::vm_thread::{workspace_root, VmCmd, VmDesk, VmReport, VmThread, VmWork};

fn cfg() -> VmConfig {
    VmConfig::default()
}

#[test]
fn mock_full_lifecycle() {
    let mut b = MockBackend::new();
    let h = b.boot(&cfg()).unwrap();
    assert_eq!(b.state_of(&h), VmState::Ready);
    let ssh = b.wait_ssh(&h).unwrap();
    assert_eq!(ssh.host, "127.0.0.1");
    assert_eq!(ssh.user, "vm");
    b.stop(&h).unwrap();
    assert_eq!(b.state_of(&h), VmState::Stopped);
    // Double stop is an error, not a silent no-op.
    assert!(b.stop(&h).is_err());
}

#[test]
fn unknown_handle_errors() {
    let mut b = MockBackend::new();
    let h = VmHandle { id: "nope".into() };
    assert_eq!(b.state_of(&h), VmState::Missing);
    assert!(b.wait_ssh(&h).is_err());
    assert!(b.stop(&h).is_err());
}

#[test]
fn each_boot_gets_own_port() {
    let mut b = MockBackend::new();
    let a = b.boot(&cfg()).unwrap();
    let c = b.boot(&cfg()).unwrap();
    assert_ne!(b.wait_ssh(&a).unwrap().port, b.wait_ssh(&c).unwrap().port);
    assert_ne!(a, c);
}

#[test]
fn config_payload_shape() {
    let cfg = VmConfig {
        vcpu: 2,
        mem_mb: 2048,
        ..VmConfig::default()
    };
    let p = build_vm_config(
        &cfg,
        "/cache/vmlinux",
        "/cache/rootfs.img",
        "/vm/seed.iso",
        "/vm/virtiofs.sock",
        None,
    );
    let v: serde_json::Value = serde_json::from_str(&p.to_json()).unwrap();
    assert_eq!(v["cpus"]["boot_vcpus"], 2);
    assert_eq!(v["memory"]["size"], 2048u64 * 1024 * 1024);
    assert_eq!(v["fs"][0]["tag"], "workspace");
    assert_eq!(v["vsock"]["cid"], GUEST_CID);
    assert_eq!(v["disks"].as_array().unwrap().len(), 2);
    assert!(v["payload"]["cmdline"]
        .as_str()
        .unwrap()
        .contains("console=hvc0"));
    assert_eq!(v["payload"]["kernel"], "/cache/vmlinux");
    assert_eq!(v["disks"][0]["path"], "/cache/rootfs.img");
    assert_eq!(v["disks"][1]["path"], "/vm/seed.iso");
    assert_eq!(v["fs"][0]["socket"], "/vm/virtiofs.sock");
    assert!(v["vsock"].get("socket").is_none());
}

#[test]
fn payload_quotes_awkward_paths() {
    let p = build_vm_config(
        &cfg(),
        "/k \"q\"\\x",
        "/i\n",
        "/s",
        "/v",
        Some("/vm/vsock.sock"),
    );
    let v: serde_json::Value = serde_json::from_str(&p.to_json()).unwrap();
    assert_eq!(v["payload"]["kernel"], "/k \"q\"\\x");
    assert_eq!(v["disks"][0]["path"], "/i\n");
    assert_eq!(v["vsock"]["socket"], "/vm/vsock.sock");
}

#[test]
fn state_mapping() {
    assert_eq!(map_ch_state(r#"{"state":"Running"}"#), VmState::Running);
    assert_eq!(map_ch_state(r#"{"state":"Created"}"#), VmState::Booting);
    assert_eq!(map_ch_state(r#"{"state":"Shutdown"}"#), VmState::Stopped);
    assert!(matches!(map_ch_state(r#"{"nope":1}"#), VmState::Error(_)));
    assert!(matches!(map_ch_state("not json"), VmState::Error(_)));
    assert!(has_shut_down(r#"{"state":"Shutdown"}"#));
    assert!(!has_shut_down(r#"{"state":"Running"}"#));
}

fn unset() -> AssetEnv {
    AssetEnv {
        path: None,
        path_exists: false,
        url: None,
        sha256: None,
    }
}

fn no_assets() -> Failure {
    match resolve_assets(&unset(), &unset(), &vec![]) {
        AssetStep::Failed(f) => f,
        other => panic!("{other:?}"),
    }
}

#[test]
fn missing_assets_error_is_actionable() {
    let err = no_assets();
    assert!(err.message.contains("ADE_VM_KERNEL"), "{err:?}");
}

#[test]
fn asset_path_wins_over_url() {
    let mut k = unset();
    k.path = Some("/k".into());
    k.path_exists = true;
    k.url = Some("https://example.invalid/k".into());
    let mut i = unset();
    i.url = Some("https://example.invalid/i".into());
    i.sha256 = Some("ab".into());
    match resolve_assets(&k, &i, &vec![]) {
        AssetStep::Fetch(s) => {
            assert_eq!(s.url, "https://example.invalid/i");
            assert_eq!(s.sha256, "ab");
            assert_eq!(s.filename, "rootfs.img");
        }
        other => panic!("the kernel is there, the image is not: {other:?}"),
    }
    match resolve_assets(&k, &i, &vec![Ok("/cache/rootfs.img".into())]) {
        AssetStep::Found { kernel, image } => {
            assert_eq!(kernel, "/k");
            assert_eq!(image, "/cache/rootfs.img");
        }
        other => panic!("{other:?}"),
    }
}

#[test]
fn kernel_download_fails_before_the_image_is_missed() {
    let mut k = unset();
    k.url = Some("https://example.invalid/k".into());
    match resolve_assets(&k, &unset(), &vec![]) {
        AssetStep::Fetch(s) => {
            assert_eq!(s.filename, "vmlinux");
            assert_eq!(s.sha256, "skip");
        }
        other => panic!("{other:?}"),
    }
    match resolve_assets(&k, &unset(), &vec![Err(Failure::because("download failed"))]) {
        AssetStep::Failed(f) => assert_eq!(f.message, "download failed"),
        other => panic!("{other:?}"),
    }
    match resolve_assets(&k, &unset(), &vec![Ok("/cache/vmlinux".into())]) {
        AssetStep::Failed(f) => assert!(f.message.starts_with("no image: set ADE_VM_IMAGE")),
        other => panic!("{other:?}"),
    }
}

#[test]
fn waits_come_to_an_end() {
    assert_eq!(socket_wait(0, false), WaitNext::Wait(100));
    assert_eq!(socket_wait(9999, false), WaitNext::Wait(100));
    assert_eq!(socket_wait(10000, false), WaitNext::GiveUp);
    assert_eq!(socket_wait(10000, true), WaitNext::GoOn);
    let down = r#"{"state":"Shutdown"}"#;
    assert_eq!(shutdown_wait(0, Some(down)), WaitNext::GoOn);
    assert_eq!(shutdown_wait(0, Some(r#"{"state":"Running"}"#)), WaitNext::Wait(200));
    assert_eq!(shutdown_wait(9999, None), WaitNext::Wait(200));
    assert_eq!(shutdown_wait(10000, Some(down)), WaitNext::GiveUp);
}

#[test]
fn payload_text_is_what_the_parser_prints() {
    let p = build_vm_config(&cfg(), "/k \"q\"", "/i\n", "/s", "/v", Some("/sock"));
    let v: serde_json::Value = serde_json::from_str(&p.to_json()).unwrap();
    assert_eq!(v.to_string(), p.to_json());
}

#[test]
fn missing_binaries_fail_fast() {
    let mut b = CloudHypervisorBackend::with_bins(
        "/nonexistent/ch".into(),
        "/nonexistent/virtiofsd".into(),
        "/tmp/ade-ch-probe".into(),
    );
    assert_eq!(b.ch_bin(), "/nonexistent/ch");
    assert_eq!(b.virtiofsd_bin(), "/nonexistent/virtiofsd");
    // Fails on assets first (no env set): fast, no hang, no daemon.
    let why = no_assets();
    assert!(why.message.contains("ADE_VM_"), "{why:?}");
    assert_eq!(
        boot_next(BootStage::Assets, Some(&why.message)),
        BootNext::Abort {
            message: why.message.clone(),
            end_daemon: false,
            end_file_server: false,
        }
    );
    let h = VmHandle { id: "nope".into() };
    assert_eq!(b.state_query(&h), InfoQuery::Known(VmState::Missing));
    assert!(b.begin_stop(&h).is_err());
}

#[test]
fn boot_runs_every_stage_once() {
    let mut seen = vec![BootStage::Assets];
    let mut stage = BootStage::Assets;
    loop {
        match boot_next(stage, None) {
            BootNext::Stage(s) => {
                assert!(!seen.contains(&s));
                seen.push(s);
                stage = s;
            }
            BootNext::Up => break,
            BootNext::Abort { .. } => panic!("nothing failed"),
        }
    }
    assert_eq!(seen.len(), 8);
    assert_eq!(
        boot_next(BootStage::Boot, Some("VmBoot(boom)")),
        BootNext::Abort {
            message: "VmBoot(boom)".into(),
            end_daemon: true,
            end_file_server: true,
        }
    );
}

#[test]
fn hypervisor_machine_comes_and_goes() {
    let mut b = CloudHypervisorBackend::new("/vms".into());
    let mut c = cfg();
    c.mount_repo = "/home/u/My_Proj.rs".into();
    let p = b.boot_plan(&c);
    assert_eq!(p.workdir, format!("/vms/{}", p.id));
    assert!(p.id.starts_with("ch-my-proj-rs-"));
    assert_ne!(b.boot_plan(&c).id, p.id);
    let h = b.on_up(&p.id, &p.api_sock, 4001);
    assert_eq!(b.ssh_port(&h).unwrap(), 4001);
    assert_eq!(b.state_query(&h), InfoQuery::Ask(p.api_sock.clone()));
    assert_eq!(
        CloudHypervisorBackend::state_from_info(Ok(r#"{"state":"Running"}"#.into())),
        VmState::Running
    );
    assert_eq!(
        CloudHypervisorBackend::on_probe(4001, None).unwrap().port,
        4001
    );
    assert!(CloudHypervisorBackend::on_probe(4001, Some("refused")).is_err());
    let vm = b.begin_stop(&h).unwrap();
    assert_eq!(vm.ssh_port, 4001);
    b.on_stopped(&h);
    assert_eq!(b.state_query(&h), InfoQuery::Known(VmState::Stopped));
}

#[test]
fn image_is_fetched_into_a_partial_file() {
    let spec = ImageSpec {
        url: "https://example.invalid/asset.bin".into(),
        sha256: "skip".into(),
        filename: "asset.bin".into(),
        max_time_secs: 123,
    };
    let plan = spec.fetch_plan("/cache");
    assert_eq!(plan.dest, "/cache/asset.bin");
    assert_ne!(plan.partial, plan.dest);
    let argv = plan.args.join(" ");
    assert!(argv.contains("--max-time 123"), "{argv}");
    assert!(argv.contains("https://example.invalid/asset.bin"), "{argv}");
    assert!(spec.after_download(false, b"curl: (7)").is_err());
    assert!(spec.after_download(true, b"").is_ok());
}

#[test]
fn tampered_image_is_refused() {
    let spec = ImageSpec {
        url: "file:///src/bad.bin".into(),
        sha256: "0".repeat(64),
        filename: "bad.bin".into(),
        max_time_secs: ImageSpec::DEFAULT_MAX_TIME_SECS,
    };
    assert!(spec.after_checksum(&"1".repeat(64)).is_err());
    assert!(spec.after_checksum(&"0".repeat(64)).is_ok());
    assert!(!spec.is_cached(true, Some(&"1".repeat(64))));
    assert!(spec.is_cached(true, Some(&"0".repeat(64))));
    assert!(!spec.is_cached(false, None));
    assert!(verify_sha256("ABcd", "abCD"));
    assert!(!verify_sha256("ab", "abcd"));
}

#[test]
fn cache_follows_home() {
    assert_eq!(
        default_cache_dir(Some("/home/u")),
        "/home/u/.local/share/ade/vm"
    );
    assert_eq!(default_cache_dir(None), "/tmp/.local/share/ade/vm");
}

#[test]
fn key_paths_lie_in_its_directory() {
    let k = EphemeralKey::from_parts("/tmp/ade-key", "ssh-ed25519 AAAA x\n");
    assert_eq!(k.dir(), "/tmp/ade-key");
    assert!(k.priv_path().starts_with("/tmp/ade-key/"));
    assert_eq!(k.pubkey_openssh(), "ssh-ed25519 AAAA x");
    let args = EphemeralKey::keygen_args("/tmp/ade-key").join(" ");
    assert!(args.contains("ed25519"), "{args}");
    assert!(args.contains(k.priv_path()), "{args}");
}

/// Backend stub: instant boot, scripted ssh behavior.
struct Stub {
    boots: Arc<Mutex<usize>>,
    ssh_ok: bool,
}

impl VmBackend for Stub {
    fn boot(&mut self, _cfg: &VmConfig) -> Result<VmHandle, VmFault> {
        *self.boots.lock().unwrap() += 1;
        Ok(VmHandle {
            id: "stub-1".into(),
        })
    }
    fn wait_ssh(&self, h: &VmHandle) -> Result<SshInfo, VmFault> {
        if self.ssh_ok {
            Ok(SshInfo {
                host: "127.0.0.1".into(),
                port: 4222,
                // Same as the live guest user.
                user: "ubuntu".into(),
            })
        } else {
            Err(VmFault::Vm(VmError::UnknownHandle(h.id.clone())))
        }
    }
    fn state_of(&self, _h: &VmHandle) -> VmState {
        VmState::Ready
    }
    fn stop(&mut self, _h: &VmHandle) -> Result<(), VmFault> {
        Ok(())
    }
}

/// Runs the steps of a start to their end, on a clock that only polls move.
fn ensure_ready(
    m: &mut VmManager<Stub>,
    key: &str,
    cfg: &VmConfig,
    mount: Result<(), Failure>,
) -> Result<VmHandle, Failure> {
    let mut step = m.ensure_boot(key, cfg);
    let mut elapsed = 0;
    for _ in 0..100_000 {
        step = match step {
            EnsureStep::Done(h) => return Ok(h),
            EnsureStep::Failed(f) => return Err(f),
            EnsureStep::ProbeSsh(h, wait) => {
                elapsed += wait;
                let probe = m.probe_ssh(&h);
                m.on_ssh(key, h, probe, elapsed)
            }
            EnsureStep::CheckMount(h, wait) => {
                elapsed = if wait == 0 { 0 } else { elapsed + wait };
                m.on_mount(key, h, mount.clone(), elapsed)
            }
        };
    }
    panic!("the start never ends");
}

fn manager(ssh_ok: bool) -> (VmManager<Stub>, Arc<Mutex<usize>>) {
    let boots = Arc::new(Mutex::new(0));
    let stub = Stub {
        boots: boots.clone(),
        ssh_ok,
    };
    (VmManager::with_timeouts(stub, VmTimeouts::test()), boots)
}

#[test]
fn happy_path_and_idempotent() {
    let (mut m, boots) = manager(true);
    let cfg = VmConfig::default();
    let h1 = ensure_ready(&mut m, "/repo/a", &cfg, Ok(())).unwrap();
    let h2 = ensure_ready(&mut m, "/repo/a", &cfg, Ok(())).unwrap();
    assert_eq!(h1, h2);
    assert_eq!(*boots.lock().unwrap(), 1);
    assert_eq!(m.state_of_workspace("/repo/a"), VmState::Ready);
    assert!(m.stop("/repo/a").unwrap());
    assert!(!m.stop("/repo/a").unwrap());
    assert_eq!(m.state_of_workspace("/repo/a"), VmState::Missing);
}

#[test]
fn ssh_timeout_records_error() {
    let (mut m, _) = manager(false);
    let err = ensure_ready(&mut m, "/repo/b", &VmConfig::default(), Ok(())).unwrap_err();
    assert!(err.message.contains("ssh timeout"));
    assert!(matches!(
        m.state_of_workspace("/repo/b"),
        VmState::Error(_)
    ));
}

#[test]
fn mount_failure_records_error() {
    let (mut m, _) = manager(true);
    let err = ensure_ready(
        &mut m,
        "/repo/c",
        &VmConfig::default(),
        Err(Failure::because("no virtiofs")),
    )
    .unwrap_err();
    assert!(err.message.contains("mount failed"));
    assert!(matches!(
        m.state_of_workspace("/repo/c"),
        VmState::Error(_)
    ));
    // The neighbours never notice.
    assert_eq!(m.state_of_workspace("/repo/d"), VmState::Missing);
}

#[test]
fn parse_ls_table() {
    let out = "SANDBOX    AGENT  STATUS   PORTS  WORKSPACE\nade-api  shell  running  -  /home/u/api\nade-old  shell  stopped  -  /home/u/old\n";
    let m = parse_sbx_ls(out);
    assert_eq!(m.get("ade-api").map(String::as_str), Some("running"));
    assert_eq!(m.get("ade-old").map(String::as_str), Some("stopped"));
    assert_eq!(m.len(), 2);
}

#[test]
fn parse_ls_skips_garbage() {
    assert!(parse_sbx_ls("").is_empty());
    assert!(parse_sbx_ls("two words\n").is_empty());
    assert!(parse_sbx_ls("one\n").is_empty());
}

#[test]
fn name_sanitizes_repo() {
    let mut b = ExternalSbxBackend::new();
    let n = b.sandbox_name("/home/u/My_Proj.rs");
    assert_eq!(n, "ade-my-proj-rs");
    b.on_created(&n);
    // Collision → suffixed, never reused.
    assert_ne!(b.sandbox_name("/home/u/My_Proj.rs"), n);
}

#[test]
fn numbered_name_is_free() {
    let mut b = ExternalSbxBackend::new();
    for repo in ["/r/demo-1", "/r/demo"] {
        let n = b.sandbox_name(repo);
        b.on_created(&n);
    }
    let n = b.sandbox_name("/s/demo");
    assert_eq!(n, "ade-demo-2");
    b.on_created(&n);
    assert_eq!(b.sandbox_name("/t/demo"), "ade-demo-3");
}

#[test]
fn unknown_handle_states() {
    let b = ExternalSbxBackend::new();
    let h = VmHandle { id: "nope".into() };
    assert_eq!(b.state_query(&h), StateQuery::Known(VmState::Missing));
    assert!(b.ssh_query(&h).is_err());
}

#[test]
fn shim_boot_ls_stop() {
    let mut b = ExternalSbxBackend::with_bin("/fake/sbx".into());
    assert_eq!(b.bin(), "/fake/sbx");
    let name = b.sandbox_name("/repo/demo");
    let create = ExternalSbxBackend::create_args(&name, "/repo/demo").join(" ");
    assert!(create.starts_with("create "), "{create}");
    assert!(create.contains("--name ade-demo"), "{create}");
    assert!(create.ends_with("/repo/demo"), "{create}");
    let h = b.on_created(&name);
    assert_eq!(h.id, "ade-demo");
    // `ls` reports running.
    assert_eq!(b.state_query(&h), StateQuery::Ask);
    let table = "SANDBOX AGENT STATUS PORTS WORKSPACE\nade-demo shell running - Planner\n";
    assert_eq!(
        ExternalSbxBackend::state_from_ls(&h, Some(table.as_bytes())),
        VmState::Running
    );
    assert_eq!(
        b.stop_args(&h).unwrap().join(" "),
        "rm --force ade-demo"
    );
    b.on_stopped(&h);
    assert_eq!(b.state_query(&h), StateQuery::Known(VmState::Stopped));
    assert!(b.stop_args(&h).is_err());
}

#[test]
fn sandbox_ssh_is_set_up_once() {
    let mut b = ExternalSbxBackend::new();
    let h = b.on_created("ade-x");
    assert_eq!(b.ssh_query(&h), Ok(SshQuery::Setup));
    assert!(b.on_setup(false, b"denied").is_err());
    assert_eq!(b.ssh_query(&h), Ok(SshQuery::Setup));
    assert!(b.on_setup(true, b"").is_ok());
    let host = match b.ssh_query(&h).unwrap() {
        SshQuery::Probe(host) => host,
        SshQuery::Setup => panic!("it is set up"),
    };
    assert!(host.contains("ade-x"), "{host}");
    let args = ExternalSbxBackend::probe_args(&host).join(" ");
    assert!(args.contains(&host), "{args}");
    assert_eq!(
        ExternalSbxBackend::on_probe(host.clone(), true).unwrap().host,
        host
    );
    assert!(ExternalSbxBackend::on_probe(host, false).is_err());
}

#[test]
fn listed_words_become_states() {
    assert_eq!(listed_state(Some("running")), VmState::Running);
    assert_eq!(listed_state(Some("stopped")), VmState::Stopped);
    assert_eq!(listed_state(Some("exited")), VmState::Stopped);
    assert_eq!(listed_state(Some("creating")), VmState::Booting);
    assert_eq!(listed_state(None), VmState::Booting);
    let h = VmHandle { id: "ade-x".into() };
    assert_eq!(
        ExternalSbxBackend::state_from_ls(&h, None),
        VmState::Error("sbx ls spawn failed".into())
    );
}

#[test]
fn failed_run_names_the_command() {
    let f = ExternalSbxBackend::run_error(&vec!["create".to_string()], b"no quota \xff");
    assert!(f.message.contains("create"), "{f:?}");
    assert!(f.message.contains("no quota \u{fffd}"), "{f:?}");
}

#[test]
fn user_data_carries_key_mount_and_socat() {
    let ud = user_data("ssh-ed25519 AAAA test", "workspace", "/workspace", 2222);
    assert!(ud.contains("ssh-ed25519 AAAA test"));
    assert!(ud.contains("[workspace, /workspace, virtiofs"));
    assert!(ud.contains("VSOCK-LISTEN:2222,fork TCP:localhost:22"));
    assert!(ud.contains("openssh-server"));
}

#[test]
fn meta_data_ids_instance() {
    let md = meta_data("ch-demo-3");
    assert!(md.contains("instance-id: ch-demo-3"));
    assert!(!md.contains("cidata"));
}

#[test]
fn seed_holds_both_files() {
    let p = seed_plan("/vm/seed", "ch-demo-3", "ssh-ed25519 AAAA", 2222);
    assert!(p.user_data.contains("ssh-ed25519 AAAA"));
    assert!(p.meta_data.contains("ch-demo-3"));
    let args = p.args.join(" ");
    assert!(args.contains(&p.iso), "{args}");
    assert!(args.contains(&p.user_data_path), "{args}");
    assert!(args.contains(&p.meta_data_path), "{args}");
}

#[test]
fn missing_socket_errors() {
    let c = UdsHttp::new("/tmp/ade-no-such.sock");
    assert!(c.get("/api/v1/vm.info").starts_with("GET /api/v1/vm.info"));
    let f = c.connect_error("No such file or directory");
    assert!(f.message.contains("/tmp/ade-no-such.sock"), "{f:?}");
}

#[test]
fn requests_name_their_path() {
    let c = UdsHttp::new("/vm/api.sock");
    let body = r#"{"cpus":{"boot_vcpus":2}}"#;
    let create = c.put("/api/v1/vm.create", Some(body));
    assert!(create.starts_with("PUT /api/v1/vm.create"), "{create}");
    assert!(create.contains("Content-Length: 25\r\n"), "{create}");
    assert!(create.ends_with(body), "{create}");
    let boot = c.put("/api/v1/vm.boot", None);
    assert!(boot.starts_with("PUT /api/v1/vm.boot"), "{boot}");
    assert!(boot.ends_with("\r\n\r\n"), "{boot}");
}

#[test]
fn error_status_carries_body() {
    let raw = b"HTTP/1.1 500 _\r\nContent-Length: 12\r\nConnection: close\r\n\r\nVmBoot(boom)";
    let err = UdsResponse::parse(raw).unwrap().ok("vm.boot").unwrap_err();
    assert!(err.message.contains("VmBoot(boom)"), "{err:?}");
}

#[test]
fn get_info_body() {
    let raw = b"HTTP/1.1 200 _\r\nContent-Length: 19\r\nConnection: close\r\n\r\n{\"state\":\"Running\"}";
    let body = UdsResponse::parse(raw).unwrap().ok("vm.info").unwrap();
    assert!(body.contains("Running"));
    assert_eq!(body, r#"{"state":"Running"}"#);
}

#[test]
fn garbage_is_no_response() {
    assert!(UdsResponse::parse(b"").is_err());
    assert!(UdsResponse::parse(b"HTTP/1.1 abc _\r\n\r\n").is_err());
    assert_eq!(UdsResponse::read("HTTP/1.1 204 _\r\n\r\n").unwrap().status, 204);
}

#[test]
fn vm_thread_workspace_root_collapses_worktrees() {
    assert_eq!(workspace_root("/repo/.ade-worktrees/feat-a"), "/repo");
    assert_eq!(workspace_root("/repo/.ade-worktrees"), "/repo");
    assert_eq!(workspace_root("/repo"), "/repo");
}

#[test]
fn thread_hands_reports_out_once() {
    let mut t = VmThread::new();
    t.ensure("a".into(), "/repo/.ade-worktrees/a".into());
    t.stop("b".into(), "/repo/.ade-worktrees/b".into());
    assert_eq!(
        t.next_command(),
        Some(VmCmd::Ensure {
            slug: "a".into(),
            path: "/repo/.ade-worktrees/a".into(),
        })
    );
    assert_eq!(
        t.next_command(),
        Some(VmCmd::Stop {
            slug: "b".into(),
            path: "/repo/.ade-worktrees/b".into(),
        })
    );
    assert_eq!(t.next_command(), None);
    t.post(VmReport {
        slug: "a".into(),
        state: VmState::Booting,
    });
    assert_eq!(t.drain().len(), 1);
    assert!(t.drain().is_empty());
}

#[test]
fn desk_makes_one_key_per_repository() {
    let mut d = VmDesk::new();
    let cmd = VmCmd::Ensure {
        slug: "a".into(),
        path: "/repo/.ade-worktrees/a".into(),
    };
    let (work, _) = d.begin(&cmd);
    assert_eq!(
        work,
        VmWork::MakeKey {
            root: "/repo".into()
        }
    );
    let key = EphemeralKey::from_parts("/tmp/k1", "ssh-ed25519 AAAA one");
    let (conf, replaced) = d.on_key("/repo", key);
    assert_eq!(conf.mount_repo, "/repo");
    assert_eq!(conf.ssh_pubkey, "ssh-ed25519 AAAA one");
    assert!(replaced.is_none());
    assert_eq!(
        VmDesk::on_ensured("a", Ok(VmState::Ready)).state,
        VmState::Ready
    );
    assert!(matches!(
        VmDesk::on_ensured("a", Err(Failure::because("no kvm"))).state,
        VmState::Error(_)
    ));
    assert!(matches!(
        VmDesk::on_key_failed("a", "no ssh-keygen").state,
        VmState::Error(_)
    ));
    let (report, gone) = d.on_stopped("/repo", "a", Ok(true));
    assert_eq!(report.state, VmState::Stopped);
    assert!(gone.is_some());
}

#[test]
fn payload_escapes_what_json_asks_for() {
    let p = build_vm_config(&cfg(), "\"\\\u{8}\t\n\u{c}\r\u{1}\u{1f}\u{7f}é", "/i", "/s", "/v", None);
    assert!(p.to_json().contains(r#""kernel":"\"\\\b\t\n\f\r\u0001\u001f"#));
    assert!(p.to_json().contains("\u{7f}é\"}"));
}
