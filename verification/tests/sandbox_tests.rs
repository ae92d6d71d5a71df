use hs_loop::repexec::{cache_dirs, optional_roots, sandbox_argv, SandboxHost};

fn host() -> SandboxHost {
    SandboxHost {
        egress_off: false,
        roots_present: vec![true, false, true, true, true, true],
        caches_bound: vec![true, false, true, true, true],
        resolv_target: Some("/run/systemd/resolve/stub-resolv.conf".to_string()),
        git_credentials: true,
        ssh_dir: false,
    }
}

#[test]
fn argv_binds_roots_caches_and_masks() {
    let argv = sandbox_argv(&host(), "/tmp/s", "make test");
    let expected: Vec<&str> = vec![
        "prlimit", "--as=8589934592", "--nproc=512", "--fsize=8589934592", "--nofile=4096", "--",
        "bwrap", "--unshare-pid", "--unshare-ipc", "--die-with-parent", "--clearenv", "--ro-bind",
        "/usr", "/usr", "--ro-bind", "/bin", "/bin", "--share-net",
        "--ro-bind", "/lib", "/lib", "--ro-bind", "/etc", "/etc", "--ro-bind", "/var", "/var",
        "--ro-bind", "/opt", "/opt", "--ro-bind", "/root", "/root",
        "--bind", "/root/.cache", "/root/.cache", "--bind", "/root/.npm", "/root/.npm",
        "--bind", "/root/.local", "/root/.local", "--bind", "/root/go", "/root/go",
        "--ro-bind", "/tmp/s/.repexec-resolv.conf", "/run/systemd/resolve/stub-resolv.conf",
        "--ro-bind", "/tmp/s/.repexec-mask", "/root/.git-credentials",
        "--dev-bind", "/dev", "/dev", "--proc", "/proc", "--bind", "/tmp/s", "/ws", "--tmpfs", "/tmp",
        "--chdir", "/ws", "--setenv", "PATH",
        "/root/.cargo/bin:/usr/local/cargo/bin:/usr/local/bin:/usr/bin:/bin", "--setenv", "HOME",
        "/root", "--setenv", "LANG", "C.UTF-8", "--", "sh", "-c",
        "{ make test\n} >/ws/.repexec-out 2>/ws/.repexec-err",
    ];
    assert_eq!(argv, expected.iter().map(|s| s.to_string()).collect::<Vec<_>>());
}

#[test]
fn egress_off_drops_the_network_and_ssh_is_masked() {
    let mut h = host();
    h.egress_off = true;
    h.ssh_dir = true;
    h.resolv_target = None;
    h.git_credentials = false;
    let argv = sandbox_argv(&h, "/w/", "a; b");
    assert!(!argv.iter().any(|a| a == "--share-net"));
    let i = argv.iter().position(|a| a == "--tmpfs").unwrap();
    assert_eq!(argv[i + 1], "/root/.ssh");
    assert!(argv.iter().any(|a| a == "/w/"));
    assert_eq!(argv.last().unwrap(), "{ a; b\n} >/ws/.repexec-out 2>/ws/.repexec-err");
}

#[test]
fn probe_lists_are_in_binding_order() {
    assert_eq!(optional_roots(), vec!["/lib", "/lib64", "/etc", "/var", "/opt", "/root"]);
    assert_eq!(cache_dirs(), vec!["/root/.cache", "/root/.cargo", "/root/.npm", "/root/.local", "/root/go"]);
}
