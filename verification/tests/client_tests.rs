use architect::command::{parse_command, tokenize, get_flag, get_flag_u32, get_positional, Command};
use architect::command_bar::CommandBarState;
use architect::task_manager::{TaskManager, TaskRecord, TaskOutcome, TaskView, CheckpointData, MAX_TERMINAL_TASKS};
use architect::types::{TaskStatus, TaskType};

fn s(v: &[&str]) -> Vec<String> {
    v.iter().map(|x| x.to_string()).collect()
}

#[test]
fn tokenize_respects_quotes() {
    assert_eq!(tokenize(r#"infer "hello world" --max-tokens 5"#), s(&["infer", "hello world", "--max-tokens", "5"]));
    assert_eq!(tokenize("  a   b "), s(&["a", "b"]));
    assert_eq!(tokenize("say 'it\"s'"), s(&["say", "it\"s"]));
    assert!(tokenize("   ").is_empty());
}

#[test]
fn flags_and_positionals() {
    let t = s(&["--epochs", "4", "data.csv", "--lr"]);
    assert_eq!(get_flag(&t, "--epochs"), Some("4".to_string()));
    assert_eq!(get_flag_u32(&t, "--epochs"), Some(4));
    assert_eq!(get_flag(&t, "--lr"), None);
    assert_eq!(get_positional(&t), Some("data.csv".to_string()));
    assert_eq!(get_flag_u32(&s(&["--epochs", "x"]), "--epochs"), None);
}

#[test]
fn parse_train_and_missing_dataset() {
    match parse_command("train --dataset d.csv --epochs 5 --batch-size 8 --max-ram 512") {
        Command::Train(a) => {
            assert_eq!(a.dataset, "d.csv");
            assert_eq!(a.epochs, Some(5));
            assert_eq!(a.batch_size, Some(8));
            assert_eq!(a.max_ram_mb, Some(512));
            assert_eq!(a.output, None);
        }
        other => panic!("unexpected {:?}", other),
    }
    match parse_command("train --epochs 5") {
        Command::Unknown(m) => assert_eq!(m, "train: --dataset required"),
        other => panic!("unexpected {:?}", other),
    }
}

#[test]
fn parse_info_quit_unknown() {
    match parse_command("INFO 1b4e28ba-2fa1-11d2-883f-0016d3cca427") {
        Command::Info { node_id, prefix } => {
            assert_eq!(node_id, Some(0x1b4e28ba_2fa1_11d2_883f_0016d3cca427));
            assert_eq!(prefix, None);
        }
        other => panic!("unexpected {:?}", other),
    }
    match parse_command("info 1b4e") {
        Command::Info { node_id, prefix } => {
            assert_eq!(node_id, None);
            assert_eq!(prefix, Some("1b4e".to_string()));
        }
        other => panic!("unexpected {:?}", other),
    }
    assert!(matches!(parse_command("  quit "), Command::Quit));
    match parse_command("") {
        Command::Unknown(m) => assert_eq!(m, ""),
        other => panic!("unexpected {:?}", other),
    }
    match parse_command("frobnicate now") {
        Command::Unknown(m) => assert_eq!(m, "frobnicate now"),
        other => panic!("unexpected {:?}", other),
    }
}

#[test]
fn parse_evaluate_metrics() {
    match parse_command("evaluate --model m --dataset d --metrics bleu, rouge") {
        Command::Evaluate(a) => assert_eq!(a.metrics, s(&["bleu", ""])),
        other => panic!("unexpected {:?}", other),
    }
    match parse_command("evaluate --model m --dataset d") {
        Command::Evaluate(a) => assert_eq!(a.metrics, s(&["perplexity"])),
        other => panic!("unexpected {:?}", other),
    }
}

#[test]
fn command_bar_tab_completes_unique_command() {
    let mut bar = CommandBarState::new();
    bar.activate();
    bar.insert_char('q');
    bar.insert_char('u');
    bar.tab_complete();
    assert_eq!(bar.input, "quit ");
    assert_eq!(bar.cursor_pos, 5);
    let c = bar.submit();
    assert!(matches!(c, Some(Command::Quit)));
    assert!(!bar.active);
    assert_eq!(bar.input, "");
}

#[test]
fn command_bar_popup_skips_separators() {
    let mut bar = CommandBarState::new();
    bar.open_popup();
    assert!(bar.popup_open);
    assert_eq!(bar.popup_selected, 0);
    for _ in 0..6 {
        bar.popup_down();
    }
    // The seventh entry is a separator, so the selection jumps over it.
    assert_eq!(bar.popup_selected, 7);
    bar.popup_up();
    assert_eq!(bar.popup_selected, 5);
    bar.popup_confirm();
    assert_eq!(bar.input, "purge");
    assert!(!bar.popup_open);
}

#[test]
fn command_bar_delete_handles_multibyte() {
    let mut bar = CommandBarState::new();
    bar.insert_char('é');
    bar.insert_char('x');
    assert_eq!(bar.cursor_pos, 3);
    bar.delete_char();
    bar.delete_char();
    assert_eq!(bar.input, "");
    assert_eq!(bar.cursor_pos, 0);
}

fn task(id: u128, priority: u8, created_at: u64, deps: Vec<u128>) -> TaskRecord {
    TaskRecord {
        task_id: id,
        task_type: TaskType::Compute,
        priority,
        created_at,
        timeout_ms: 300_000,
        depends_on: deps,
        resumable: false,
        resume_from: None,
    }
}

fn outcome(id: u128, success: bool) -> TaskOutcome {
    TaskOutcome { task_id: id, node_id: 9, success, duration_ms: 10, error: None }
}

fn status_of(tm: &TaskManager, id: u128) -> Option<TaskStatus> {
    tm.all_tasks().iter().find(|v: &&TaskView| v.task_id == id).map(|v| v.status)
}

#[test]
fn task_lifecycle_and_idempotent_completion() {
    let mut tm = TaskManager::new();
    assert_eq!(tm.submit(task(1, 5, 10, vec![])), 1);
    tm.assign(1, 7);
    assert_eq!(tm.tasks_assigned_to(7), vec![1]);
    tm.complete(1, outcome(1, true));
    assert_eq!(status_of(&tm, 1), Some(TaskStatus::Completed));
    tm.complete(1, outcome(1, false));
    assert_eq!(status_of(&tm, 1), Some(TaskStatus::Completed));
    assert!(tm.tasks_assigned_to(7).is_empty());
}

#[test]
fn requeue_respects_retry_budget() {
    let mut tm = TaskManager::new();
    tm.submit(task(2, 5, 10, vec![]));
    for _ in 0..3 {
        tm.assign(2, 7);
        assert!(tm.requeue(2));
    }
    tm.assign(2, 7);
    assert!(!tm.requeue(2));
    assert_eq!(status_of(&tm, 2), Some(TaskStatus::Failed));
}

#[test]
fn pending_tasks_wait_for_dependencies_and_sort_by_priority() {
    let mut tm = TaskManager::new();
    tm.submit(task(1, 1, 10, vec![]));
    tm.submit(task(2, 9, 11, vec![]));
    tm.submit(task(3, 5, 12, vec![1]));
    let ids: Vec<u128> = tm.pending_tasks().iter().map(|t| t.task_id).collect();
    assert_eq!(ids, vec![2, 1]);
    tm.complete(1, outcome(1, true));
    let ids: Vec<u128> = tm.pending_tasks().iter().map(|t| t.task_id).collect();
    assert_eq!(ids, vec![2, 3]);
}

#[test]
fn find_by_prefix_matches_case_blind() {
    let mut tm = TaskManager::new();
    tm.submit(task(0xabcdef00_0000_0000_0000_000000000001, 5, 1, vec![]));
    tm.submit(task(0xabcdef00_0000_0000_0000_000000000002, 5, 1, vec![]));
    tm.submit(task(0x12345678_0000_0000_0000_000000000003, 5, 1, vec![]));
    let found = tm.find_by_prefix("ABCD").unwrap();
    assert!(found == 0xabcdef00_0000_0000_0000_000000000001 || found == 0xabcdef00_0000_0000_0000_000000000002);
    assert_eq!(tm.find_by_prefix("1234"), Some(0x12345678_0000_0000_0000_000000000003));
    assert_eq!(tm.find_by_prefix("ffff"), None);
}

#[test]
fn lowest_priority_task_and_checkpoint() {
    let mut tm = TaskManager::new();
    tm.submit(task(1, 7, 1, vec![]));
    tm.submit(task(2, 3, 1, vec![]));
    tm.assign(1, 5);
    tm.assign(2, 5);
    assert_eq!(tm.lowest_priority_task_on(5), Some(2));
    tm.inject_checkpoint(2, CheckpointData { epoch: 1, step: 12, state: vec![1, 2] });
    tm.revert_to_pending(1);
    assert_eq!(status_of(&tm, 1), Some(TaskStatus::Pending));
}

#[test]
fn prune_terminal_keeps_the_newest() {
    let mut tm = TaskManager::new();
    let n = MAX_TERMINAL_TASKS as u128 + 3;
    for i in 0..n {
        tm.submit(task(i + 1, 5, (i as u64) * 10, vec![]));
        tm.cancel(i + 1);
    }
    tm.submit(task(100_000, 5, 0, vec![]));
    tm.prune_terminal();
    let all = tm.all_tasks();
    assert_eq!(all.len(), MAX_TERMINAL_TASKS + 1);
    assert_eq!(status_of(&tm, 1), None);
    assert_eq!(status_of(&tm, 3), None);
    assert_eq!(status_of(&tm, 4), Some(TaskStatus::Cancelled));
    assert_eq!(status_of(&tm, 100_000), Some(TaskStatus::Pending));
}

#[test]
fn plugin_config_is_rest_of_line_as_typed() {
    match parse_command(r#"plugin myplug {"k": 1}"#) {
        Command::Plugin { name, config } => {
            assert_eq!(name, "myplug");
            assert_eq!(config, r#"{"k": 1}"#);
        }
        _ => panic!("expected plugin"),
    }
    match parse_command("plugin myplug") {
        Command::Plugin { name, config } => {
            assert_eq!(name, "myplug");
            assert_eq!(config, "{}");
        }
        _ => panic!("expected plugin"),
    }
    match parse_command("  plugin   p1   a  b  ") {
        Command::Plugin { config, .. } => assert_eq!(config, "a  b"),
        _ => panic!("expected plugin"),
    }
}

#[test]
fn all_tasks_newest_first_by_creation_time() {
    let mut tm = TaskManager::new();
    tm.submit(task(1, 5, 300, vec![]));
    tm.submit(task(2, 5, 100, vec![]));
    tm.submit(task(3, 5, 200, vec![]));
    let ids: Vec<u128> = tm.all_tasks().iter().map(|v| v.task_id).collect();
    assert_eq!(ids, vec![1, 3, 2]);
}

#[test]
fn typing_then_deleting_restores_the_bar() {
    let mut bar = CommandBarState::new();
    bar.input = "infér x".to_string();
    bar.cursor_pos = 6;
    bar.insert_char('é');
    assert_eq!(bar.input, "inféré x");
    bar.delete_char();
    assert_eq!(bar.input, "infér x");
    assert_eq!(bar.cursor_pos, 6);
    assert!(!bar.popup_open);
}
