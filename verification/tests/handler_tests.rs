use linux_task_manager::process_handler::{build_snapshot, make_sample, ProcessHandler, RawProcess};

fn raw(pid: i32, user_id: Option<&str>, cpu: u64, mem: u64, cmd: &str) -> RawProcess {
    RawProcess {
        pid,
        user_id: user_id.map(String::from),
        cpu_usage: cpu,
        memory_usage: mem,
        command: String::from(cmd),
    }
}

#[test]
fn new_handler_has_empty_histories() {
    let handler = ProcessHandler::new();
    assert!(handler.get_cpu_usage_history().is_empty());
    assert!(handler.get_memory_usage_history().is_empty());
}

#[test]
fn refresh_records_cpu_and_memory_percent() {
    let mut handler = ProcessHandler::new();
    // 37.50 % CPU; 1 of 4 memory units in use = 25.00 %.
    handler.refresh(3750, 1, 4);
    assert_eq!(handler.get_cpu_usage_history(), &vec![3750u64]);
    assert_eq!(handler.get_memory_usage_history(), &vec![2500u64]);
}

#[test]
fn zero_total_memory_skips_memory_push() {
    let mut handler = ProcessHandler::new();
    handler.refresh(100, 12345, 0);
    assert_eq!(handler.get_cpu_usage_history(), &vec![100u64]);
    assert!(handler.get_memory_usage_history().is_empty());
}

#[test]
fn histories_are_bounded_across_refreshes() {
    let mut handler = ProcessHandler::new();
    for i in 0..150u64 {
        handler.refresh(i, i, 100);
    }
    assert_eq!(handler.get_cpu_usage_history().len(), 100);
    assert_eq!(handler.get_cpu_usage_history()[0], 50);
    assert_eq!(handler.get_cpu_usage_history()[99], 149);
    assert_eq!(handler.get_memory_usage_history().len(), 100);
}

#[test]
fn failed_owner_lookup_gets_placeholder() {
    let sample = make_sample(raw(7, None, 10, 20, "bash"));
    assert_eq!(sample.user, "Unknown");
    assert_eq!(sample.pid, 7);
    assert_eq!(sample.command, "bash");
    let resolved = make_sample(raw(8, Some("1000"), 10, 20, "vim"));
    assert_eq!(resolved.user, "1000");
}

#[test]
fn snapshot_maps_every_row_in_order() {
    let rows = vec![raw(1, Some("root"), 5, 6, "init"), raw(2, None, 7, 8, "kthreadd")];
    let snapshot = build_snapshot(rows);
    assert_eq!(snapshot.len(), 2);
    assert_eq!(snapshot[0].pid, 1);
    assert_eq!(snapshot[0].user, "root");
    assert_eq!(snapshot[1].pid, 2);
    assert_eq!(snapshot[1].user, "Unknown");
    assert_eq!(snapshot[1].memory_usage, 8);
}
