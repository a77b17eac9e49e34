use radiucal_admin::change::{config_changed, daily_pass_due, should_reconcile};
use radiucal_admin::daemon::{all_delivered, daemons, kill_flag, process_ids, SignalStep};
use radiucal_admin::daily::{daily_marker, daily_marker_today, CalendarDate};
use radiucal_admin::decimal::{decimal, decimal_padded};
use radiucal_admin::fields::{split_blank, split_lines};
use radiucal_admin::model::Vlan;
use radiucal_admin::reconcile::{placeholder_content, plan_reconcile, plan_update};
use radiucal_admin::signal_all;
use radiucal_admin::text::{sort_texts, text_le_exec};
use radiucal_admin::topology::{create_vlan_outputs, legacy_args, Render};

fn s(x: &str) -> String {
    x.to_string()
}

fn strings(xs: &[&str]) -> Vec<String> {
    xs.iter().map(|x| s(x)).collect()
}

fn vlan(name: &str, number: u32, initiate: &[&str]) -> Vlan {
    Vlan {
        name: s(name),
        number,
        initiate: strings(initiate),
        cell: s("c1"),
        lan: s("l1"),
        owner: s("ops"),
        description: s("about"),
    }
}

#[test]
fn reconcile_converges_to_target() {
    let plan = plan_reconcile(&strings(&["a", "b", "c"]), &strings(&["b", "c", "d"]));
    assert_eq!(plan.remove, strings(&["d"]));
    assert_eq!(plan.create, strings(&["a"]));
}

#[test]
fn reconcile_of_matching_directory_does_nothing() {
    let plan = plan_reconcile(&strings(&["a", "b"]), &strings(&["b", "a"]));
    assert!(plan.remove.is_empty());
    assert!(plan.create.is_empty());
}

#[test]
fn reconcile_creates_duplicate_names_once() {
    let plan = plan_reconcile(&strings(&["a", "a"]), &strings(&[]));
    assert_eq!(plan.create, strings(&["a"]));
}

#[test]
fn update_plan_reads_manifest_lines() {
    let plan = plan_update(&s("a\n\nb\nc\n"), &strings(&["b", "c", "d"]));
    assert_eq!(plan.remove, strings(&["d"]));
    assert_eq!(plan.create, strings(&["a"]));
}

#[test]
fn placeholder_is_user() {
    assert_eq!(placeholder_content(), "user");
}

#[test]
fn unchanged_digest_is_not_a_change() {
    let d = b"abc  file\n".to_vec();
    assert!(config_changed(&d, &None));
    assert!(!config_changed(&d, &Some(d.clone())));
    assert!(config_changed(&d, &Some(b"abd  file\n".to_vec())));
    assert!(config_changed(&d, &Some(b"abc".to_vec())));
}

#[test]
fn reconcile_only_on_server_change() {
    assert!(should_reconcile(true, false));
    assert!(!should_reconcile(true, true));
    assert!(!should_reconcile(false, false));
    assert!(daily_pass_due(false, false));
    assert!(!daily_pass_due(false, true));
    assert!(!daily_pass_due(true, false));
}

#[test]
fn signal_all_signals_every_daemon() {
    assert_eq!(signal_all(&vec![]), SignalStep::Deliver(0));
    assert_eq!(signal_all(&vec![true]), SignalStep::Deliver(1));
    assert_eq!(signal_all(&vec![true, true]), SignalStep::Finished(true));
    assert_eq!(signal_all(&vec![false]), SignalStep::Deliver(1));
    assert_eq!(signal_all(&vec![false, true]), SignalStep::Finished(false));
    assert_eq!(signal_all(&vec![true, false]), SignalStep::Finished(false));
    assert_eq!(signal_all(&vec![false, false]), SignalStep::Finished(false));
}

#[test]
fn daemons_and_flags() {
    let d = daemons();
    assert_eq!(d.len(), 2);
    assert_eq!((d[0].process.as_str(), d[0].signal.as_str()), ("hostapd", "HUP"));
    assert_eq!((d[1].process.as_str(), d[1].signal.as_str()), ("radiucal", "2"));
    assert_eq!(kill_flag(&s("HUP")), "-HUP");
}

#[test]
fn process_ids_split_on_white_space() {
    assert_eq!(process_ids(&s("12 345  6\n")), strings(&["12", "345", "6"]));
    assert!(process_ids(&s("\n")).is_empty());
    assert!(all_delivered(&vec![]));
    assert!(all_delivered(&vec![true, true]));
    assert!(!all_delivered(&vec![true, false]));
}

#[test]
fn splitting_drops_empty_pieces() {
    assert_eq!(split_lines(&s("x y\n\nz")), strings(&["x y", "z"]));
    assert_eq!(split_blank(&s("\tx y\r\nz ")), strings(&["x", "y", "z"]));
    assert!(split_lines(&s("")).is_empty());
}

#[test]
fn decimal_rendering() {
    assert_eq!(decimal(0), "0");
    assert_eq!(decimal(4094), "4094");
    assert_eq!(decimal(u64::MAX), "18446744073709551615");
    assert_eq!(decimal_padded(7, 2), "07");
    assert_eq!(decimal_padded(123, 2), "123");
}

#[test]
fn daily_marker_names_the_date() {
    let d = CalendarDate { year: 2024, month: 3, day: 7 };
    assert_eq!(daily_marker(&d), ".radius.2024-03-07");
    let d = CalendarDate { year: 12, month: 12, day: 31 };
    assert_eq!(daily_marker(&d), ".radius.0012-12-31");
    let d = CalendarDate { year: -1, month: 1, day: 1 };
    assert_eq!(daily_marker(&d), ".radius.-0001-01-01");
    let d = CalendarDate { year: 10000, month: 1, day: 1 };
    assert_eq!(daily_marker(&d), ".radius.+10000-01-01");
}

#[test]
fn todays_marker_has_the_date_shape() {
    let m = daily_marker_today();
    let b = m.as_bytes();
    assert_eq!(b.len(), 18);
    assert!(m.starts_with(".radius."));
    assert_eq!(b[12], b'-');
    assert_eq!(b[15], b'-');
    assert!(m[8..12].bytes().chain(m[13..15].bytes()).chain(m[16..18].bytes()).all(|c| c.is_ascii_digit()));
}

#[test]
fn text_order_is_by_code_point() {
    assert!(text_le_exec(&s("a"), &s("b")));
    assert!(text_le_exec(&s("ab"), &s("ab")));
    assert!(text_le_exec(&s("a"), &s("ab")));
    assert!(!text_le_exec(&s("b"), &s("ab")));
    assert!(text_le_exec(&s("Z"), &s("a")));
    assert_eq!(sort_texts(strings(&["b", "a", "ab", "B"])), strings(&["B", "a", "ab", "b"]));
}

#[test]
fn vlan_renders_itself() {
    let v = vlan("staff", 10, &["guest"]);
    assert_eq!(
        v.render_diagram(),
        "    \"staff\" [label=\"staff (10)\"];\n    \"staff\" -> \"guest\";\n"
    );
    assert_eq!(v.render_table_row(), "| c1 | staff | l1 | 10 | ops | about |\n");
}

#[test]
fn topology_is_in_name_order() {
    let out = create_vlan_outputs(&vec![vlan("staff", 10, &[]), vlan("guest", 20, &["staff"])]);
    assert_eq!(out.diagram.len(), 4);
    assert_eq!(
        out.diagram[0],
        "digraph g {\n    size=\"6,6\";\n    node [color=lightblue2, style=filled];\n"
    );
    assert_eq!(
        out.diagram[1],
        "    \"guest\" [label=\"guest (20)\"];\n    \"guest\" -> \"staff\";\n"
    );
    assert_eq!(out.diagram[2], "    \"staff\" [label=\"staff (10)\"];\n");
    assert_eq!(out.diagram[3], "}\n");
    assert_eq!(
        out.table,
        strings(&[
            "| cell | segment | lan | vlan | owner | description |\n| --- | --- | --- | --- | --- | --- |\n",
            "| c1 | guest | l1 | 20 | ops | about |\n",
            "| c1 | staff | l1 | 10 | ops | about |\n",
        ])
    );
}

#[test]
fn legacy_arguments_pair_names_and_numbers() {
    let args = legacy_args(&vec![vlan("staff", 10, &[]), vlan("guest", 20, &[])]);
    assert_eq!(args, strings(&["staff=10", "guest=20"]));
}
