use gmon::docker::docker::Docker;

#[test]
fn ps_splits_ids_and_drops_trailing_newline() {
    let d = Docker::new();
    let ids = d.ps("abc123\ndef456\n");
    assert_eq!(ids, vec!["abc123".to_string(), "def456".to_string()]);
}

#[test]
fn ps_of_empty_output_is_one_empty_id() {
    let d = Docker::new();
    assert_eq!(d.ps(""), vec!["".to_string()]);
}

#[test]
fn inspect_reads_id_pid_and_name() {
    let d = Docker::new();
    let c = d.inspect("cid123 4567 /web\n").unwrap();
    assert_eq!(c.id, "cid123");
    assert_eq!(c.state.pid, 4567);
    assert_eq!(c.name, "web");
}

#[test]
fn inspect_keeps_name_without_slash() {
    let d = Docker::new();
    let c = d.inspect("cid 1 db").unwrap();
    assert_eq!(c.name, "db");
}

#[test]
fn inspect_rejects_short_and_nonnumeric_lines() {
    let d = Docker::new();
    assert!(d.inspect("cid123").is_none());
    assert!(d.inspect("cid123 notapid /web").is_none());
}

#[test]
fn inspect_all_skips_empty_lines() {
    let d = Docker::new();
    let out = "aaa 10 /one\n\nbbb 20 /two\n";
    let cs = d.inspect_all(out);
    assert_eq!(cs.len(), 2);
    assert_eq!(cs[0].id, "aaa");
    assert_eq!(cs[0].state.pid, 10);
    assert_eq!(cs[0].name, "one");
    assert_eq!(cs[1].id, "bbb");
    assert_eq!(cs[1].state.pid, 20);
    assert_eq!(cs[1].name, "two");
}
