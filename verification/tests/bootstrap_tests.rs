use architect::bootstrap::{
    uname_to_label, normalize_arch, android_label, windows_label, BootstrapOrchestrator, BootstrapTarget,
    BootstrapMethod, failure_detail, failed_result, unconfigured_result, binary_looks_invalid, has_shell_metachar,
    escape_single_quotes, SshBootstrapper, AdbBootstrapper, WinRmBootstrapper, UploadError, UPLOAD_CHUNK,
};
use architect::types::DeviceType;
use architect::agent_task::{
    max_concurrent, accept_task, quota_rejection, timeout_error, validate_request, PayloadRequest,
    inference_tokens, rag_tokens, training_schedule, ResultBuffer, MAX_BUFFERED_RESULTS, task_outcome,
};

fn target(device: DeviceType, ssh: bool, winrm: bool) -> BootstrapTarget {
    BootstrapTarget {
        host: "10.0.0.5".into(),
        device_type: device,
        ssh_user: if ssh { Some("root".into()) } else { None },
        ssh_pass: None,
        winrm_credentials: if winrm { Some(("u".into(), "p".into())) } else { None },
    }
}

#[test]
fn labels_from_uname() {
    assert_eq!(uname_to_label("Linux", "armv7l"), Some("linux-armv7".into()));
    assert_eq!(uname_to_label("Darwin", "arm64"), Some("macos-aarch64".into()));
    assert_eq!(uname_to_label("SunOS", "x86_64"), None);
    assert_eq!(uname_to_label("Linux", "mips"), None);
    assert_eq!(normalize_arch("aarch64"), Some("aarch64"));
    assert_eq!(android_label("armv7l"), Some("android-armv7".into()));
    assert_eq!(windows_label(" AMD64\r\n"), Some("windows-x86_64".into()));
    assert_eq!(windows_label("x86"), None);
}

#[test]
fn orchestrator_plan_and_args() {
    let mut o = BootstrapOrchestrator::new();
    assert!(o.plan(&target(DeviceType::Desktop, true, true)).is_empty());
    o.set_github_repo("o/r".into());
    assert_eq!(o.plan(&target(DeviceType::Desktop, true, true)), vec![BootstrapMethod::Ssh, BootstrapMethod::WinRm]);
    assert_eq!(o.plan(&target(DeviceType::Laptop, false, true)), vec![BootstrapMethod::WinRm]);
    assert_eq!(o.plan(&target(DeviceType::Phone, true, true)), vec![BootstrapMethod::Adb]);
    assert!(o.plan(&target(DeviceType::SmartTV, true, true)).is_empty());
    assert_eq!(o.agent_args(), "");
    o.set_cluster_token("tok".into());
    assert_eq!(o.agent_args(), "--token tok");
    o.set_coordinator_addr("10.0.0.1:9876".into());
    assert_eq!(o.agent_args(), "--coordinator 10.0.0.1:9876 --token tok");
    assert_eq!(
        o.download_url("linux-x86_64"),
        Some("https://github.com/o/r/releases/latest/download/architect-agent-linux-x86_64".into())
    );
}

#[test]
fn failure_results() {
    assert_eq!(failure_detail(&vec![]), "no bootstrap method available");
    assert_eq!(failure_detail(&vec!["ssh: x".into(), "winrm: y".into()]), "ssh: x; winrm: y");
    let r = failed_result("h".into(), &vec!["adb: z".into()]);
    assert!(!r.success);
    assert_eq!(r.method, BootstrapMethod::Manual);
    assert_eq!(r.error, Some("adb: z".into()));
    assert_eq!(unconfigured_result("h".into()).error, Some("github_repo not configured".into()));
}

#[test]
fn shell_and_powershell_text() {
    assert!(binary_looks_invalid("/tmp/a: HTML document"));
    assert!(binary_looks_invalid("/tmp/a: empty"));
    assert!(!binary_looks_invalid("/tmp/a: ELF 64-bit LSB executable"));
    assert!(has_shell_metachar("/tmp/a;rm"));
    assert!(!has_shell_metachar("/tmp/architect-agent"));
    assert_eq!(escape_single_quotes("it's"), "it''s");
    assert_eq!(SshBootstrapper::destination("root", "10.0.0.5"), "ssh://root@10.0.0.5");
    assert_eq!(
        SshBootstrapper::start_command("/tmp/a", "--token t"),
        "nohup /tmp/a --token t > \"$(mktemp -d)/architect-agent.log\" 2>&1 &"
    );
    assert_eq!(AdbBootstrapper::serial("10.0.0.5"), "10.0.0.5:5555");
    assert_eq!(AdbBootstrapper::connect_address("10.0.0.5", 5555), "10.0.0.5:5555");
    assert!(AdbBootstrapper::connect_succeeded("connected to 10.0.0.5:5555"));
    let w = WinRmBootstrapper::new(5985);
    assert_eq!(w.url("10.0.0.5"), "http://10.0.0.5:5985/wsman");
    assert_eq!(
        WinRmBootstrapper::script("o'neil", "p'w", "10.0.0.5", "echo 'hi'"),
        "$cred = New-Object PSCredential('o''neil', (ConvertTo-SecureString 'p''w' -AsPlainText -Force)); Invoke-Command -ComputerName 10.0.0.5 -Credential $cred -ScriptBlock { echo ''hi'' }"
    );
}

#[test]
fn upload_commands_chunk_the_base64_text() {
    assert_eq!(SshBootstrapper::upload_commands("/tmp/a$b", &[1, 2, 3]).unwrap_err(), UploadError::InvalidRemotePath);
    let cmds = SshBootstrapper::upload_commands("/tmp/a", b"hi!").unwrap();
    assert_eq!(cmds, vec![
        ": > /tmp/a.b64".to_string(),
        "printf '%s' 'aGkh' >> /tmp/a.b64".to_string(),
        "base64 -d /tmp/a.b64 > /tmp/a && rm /tmp/a.b64 && chmod +x /tmp/a".to_string(),
    ]);
    let big = vec![0u8; 3 * UPLOAD_CHUNK / 4 + 3];
    let cmds = SshBootstrapper::upload_commands("/tmp/b", &big).unwrap();
    assert_eq!(cmds.len(), 4);
    let empty = SshBootstrapper::upload_commands("/tmp/c", &[]).unwrap();
    assert_eq!(empty.len(), 2);
}

#[test]
fn task_admission_and_errors() {
    assert_eq!(max_concurrent(8), 4);
    assert_eq!(max_concurrent(1), 1);
    assert!(accept_task(1, 2).is_ok());
    assert_eq!(accept_task(2, 2).unwrap_err(), "At capacity: 2/2 tasks running");
    assert_eq!(quota_rejection(100, Some(512)), Some("Insufficient RAM: 100 MB available, 512 MB required by quota".into()));
    assert_eq!(quota_rejection(1000, Some(512)), None);
    assert_eq!(quota_rejection(0, None), None);
    assert_eq!(timeout_error(300000), "Task timed out after 300000ms");
    let o = task_outcome(1, 2, Err("boom".into()), 7);
    assert!(!o.success);
    assert_eq!(o.error, Some("boom".into()));
}

#[test]
fn request_validation_messages() {
    let e = |r: PayloadRequest| validate_request(&r).unwrap_err();
    assert_eq!(e(PayloadRequest::Train { dataset_path: "".into() }), "Training requires --dataset path");
    assert_eq!(e(PayloadRequest::Finetune { base_model: "".into(), dataset_path: "".into() }), "Fine-tuning requires --base model");
    assert_eq!(e(PayloadRequest::Finetune { base_model: "b".into(), dataset_path: "".into() }), "Fine-tuning requires --dataset path");
    assert_eq!(e(PayloadRequest::Evaluate { model_path: "m".into(), dataset_path: "".into() }), "Evaluation requires --dataset path");
    assert_eq!(e(PayloadRequest::Rag { query: "q".into(), index_path: "".into() }), "RAG requires --index path");
    assert_eq!(e(PayloadRequest::Embed { input: "".into() }), "Embedding requires input text");
    assert_eq!(e(PayloadRequest::InferenceResponse), "Agent should not receive InferenceResponse");
    assert!(validate_request(&PayloadRequest::Preprocess { input_path: "in".into() }).is_ok());
    assert!(validate_request(&PayloadRequest::Other).is_ok());
}

#[test]
fn simulated_tokens() {
    let t = inference_tokens(5, 3);
    assert_eq!(t, vec![155, 156, 157]);
    assert_eq!(inference_tokens(5, 1000).len(), 128);
    let r = rag_tokens(10);
    assert_eq!(r.len(), 32);
    assert_eq!(r[0], 70);
    assert_eq!(r[31], 101);
}

#[test]
fn training_schedule_resumes_and_checkpoints() {
    let s = training_schedule(2, 10, 5, 0, 0);
    assert_eq!(s.len(), 20);
    assert_eq!(s.iter().filter(|x| x.checkpoint).count(), 3);
    let r = training_schedule(3, 8, 4, 1, 6);
    assert_eq!(r.len(), 2 + 8);
    assert_eq!((r[0].epoch, r[0].step, r[0].global_step), (1, 6, 14));
    assert_eq!(r.last().unwrap().global_step, 23);
    assert!(training_schedule(0, 10, 5, 0, 0).len() == 10);
    assert!(training_schedule(2, 10, 5, 5, 0).is_empty());
}

#[test]
fn result_buffer_drops_oldest() {
    let mut b: ResultBuffer<u32> = ResultBuffer::new();
    for i in 0..(MAX_BUFFERED_RESULTS as u32 + 2) {
        b.push(i);
    }
    assert_eq!(b.len(), MAX_BUFFERED_RESULTS);
    let d = b.drain();
    assert_eq!(d[0], 2);
    assert_eq!(b.len(), 0);
}

#[test]
fn results_are_kept_only_when_sending_failed() {
    let mut b: ResultBuffer<u32> = ResultBuffer::new();
    b.after_send(Ok(()));
    assert_eq!(b.len(), 0);
    b.after_send(Err(7));
    b.after_send(Err(8));
    assert_eq!(b.drain(), vec![7, 8]);
}
