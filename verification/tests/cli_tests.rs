use linux_task_manager::cli::{
    list_view, parse_sort_field, parse_sort_order, Cli, Commands, QueryError,
};
use linux_task_manager::data_structures::ProcessInfo;
use linux_task_manager::query::{SortField, SortOrder};

fn proc(pid: i32, cpu: u64, mem: u64, cmd: &str) -> ProcessInfo {
    ProcessInfo {
        pid,
        user: String::from("root"),
        cpu_usage: cpu,
        memory_usage: mem,
        command: String::from(cmd),
    }
}

#[test]
fn sort_field_names_are_recognized() {
    assert_eq!(parse_sort_field("pid"), Ok(SortField::PID));
    assert_eq!(parse_sort_field("cpu"), Ok(SortField::CPU));
    assert_eq!(parse_sort_field("memory"), Ok(SortField::Memory));
    assert_eq!(parse_sort_field("command"), Ok(SortField::Command));
}

#[test]
fn unknown_sort_field_is_rejected() {
    assert_eq!(parse_sort_field("rss"), Err(QueryError::InvalidSortField));
    assert_eq!(parse_sort_field("PID"), Err(QueryError::InvalidSortField));
    assert_eq!(parse_sort_field(""), Err(QueryError::InvalidSortField));
}

#[test]
fn order_defaults_to_descending_unless_asc() {
    assert_eq!(parse_sort_order("asc"), SortOrder::Ascending);
    assert_eq!(parse_sort_order("desc"), SortOrder::Descending);
    assert_eq!(parse_sort_order("anything"), SortOrder::Descending);
}

#[test]
fn list_view_rejects_bad_sort_key_before_sorting() {
    let snapshot = vec![proc(1, 0, 0, "a")];
    let out = list_view(snapshot, "bogus", "asc", &None);
    assert_eq!(out.unwrap_err(), QueryError::InvalidSortField);
}

#[test]
fn list_view_filters_and_sorts() {
    let snapshot = vec![
        proc(10, 500, 2048, "sshd"),
        proc(20, 5000, 4096, "chrome"),
        proc(30, 100, 512, "sshfs"),
    ];
    let out = list_view(snapshot, "cpu", "desc", &Some(String::from("ss"))).unwrap();
    let pids: Vec<i32> = out.iter().map(|p| p.pid).collect();
    assert_eq!(pids, vec![10, 30]);
}

#[test]
fn list_view_without_filter_keeps_everything() {
    let snapshot = vec![proc(2, 0, 0, "b"), proc(1, 0, 0, "a")];
    let out = list_view(snapshot, "pid", "asc", &None).unwrap();
    let pids: Vec<i32> = out.iter().map(|p| p.pid).collect();
    assert_eq!(pids, vec![1, 2]);
}

#[test]
fn command_shapes_carry_their_arguments() {
    let cli = Cli {
        command: Commands::List {
            sort_by: String::from("pid"),
            order: String::from("asc"),
            filter: Some(String::from("ss")),
        },
    };
    match cli.command {
        Commands::List { sort_by, order, filter } => {
            assert_eq!(sort_by, "pid");
            assert_eq!(order, "asc");
            assert_eq!(filter.as_deref(), Some("ss"));
        }
        Commands::Kill { .. } => panic!("wrong variant"),
    }
    let kill = Commands::Kill { pid: 7, signal: String::from("SIGTERM") };
    match kill {
        Commands::Kill { pid, signal } => {
            assert_eq!(pid, 7);
            assert_eq!(signal, "SIGTERM");
        }
        Commands::List { .. } => panic!("wrong variant"),
    }
}
