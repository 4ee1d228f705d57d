use help_nav::catalog::{
    build_catalog, category_keys, checks_pass, entry_text_of, group_commands, CheckOutcome,
    CommandGate, CommandInfo, FilterOutcome, ParamInfo, SubcommandInfo,
};

fn cmd(name: &str, desc: Option<&str>, cat: Option<&str>) -> CommandInfo {
    CommandInfo {
        name: name.to_string(),
        description: desc.map(|d| d.to_string()),
        category: cat.map(|c| c.to_string()),
        hidden: false,
        context_menu: None,
        parameters: Vec::new(),
        subcommands: Vec::new(),
    }
}

fn sub(name: &str, desc: Option<&str>, hidden: bool) -> SubcommandInfo {
    SubcommandInfo {
        name: name.to_string(),
        description: desc.map(|d| d.to_string()),
        hidden,
        parameters: Vec::<ParamInfo>::new(),
    }
}

fn open_gate() -> CommandGate {
    CommandGate { filter: FilterOutcome::Unfiltered, checks: Vec::new() }
}

fn gate(filter: FilterOutcome, checks: Vec<CheckOutcome>) -> CommandGate {
    CommandGate { filter, checks }
}

fn labels(pages: &[help_nav::catalog::Page]) -> Vec<String> {
    pages.iter().map(|p| p.category.clone()).collect()
}

#[test]
fn three_categories_in_registry_order() {
    let cmds = vec![
        cmd("ping", Some("Pong"), None),
        cmd("echo", Some("Echoes"), Some("Fun")),
        cmd("ban", Some("Bans"), Some("Mod")),
    ];
    let keys = category_keys(&cmds);
    let gates = vec![open_gate(), open_gate(), open_gate()];
    let pages = build_catalog(&cmds, &keys, &gates, "!").unwrap();
    assert_eq!(labels(&pages), vec!["Uncategorized", "Fun", "Mod"]);
    assert_eq!(pages[0].body, "/ping - Pong\n");
    assert_eq!(pages[1].body, "/echo - Echoes\n");
    assert_eq!(pages[2].body, "/ban - Bans\n");
}

#[test]
fn categories_keep_first_seen_order_not_sorted() {
    let cmds = vec![
        cmd("a", None, Some("Zeta")),
        cmd("b", None, Some("Alpha")),
        cmd("c", None, Some("Zeta")),
        cmd("d", None, None),
        cmd("e", None, Some("Alpha")),
    ];
    let keys = category_keys(&cmds);
    let gates = (0..5).map(|_| open_gate()).collect::<Vec<_>>();
    let pages = build_catalog(&cmds, &keys, &gates, "!").unwrap();
    assert_eq!(labels(&pages), vec!["Zeta", "Alpha", "Uncategorized"]);
    assert_eq!(
        pages[0].body,
        "/a - *No description available yet*\n/c - *No description available yet*\n"
    );
    assert_eq!(
        pages[1].body,
        "/b - *No description available yet*\n/e - *No description available yet*\n"
    );
}

#[test]
fn grouping_lists_positions_per_key() {
    let keys = vec![Some("x".to_string()), None, Some("x".to_string()), None, Some("y".to_string())];
    let groups = group_commands(&keys);
    assert_eq!(
        groups,
        vec![
            (Some("x".to_string()), vec![0, 2]),
            (None, vec![1, 3]),
            (Some("y".to_string()), vec![4]),
        ]
    );
    assert!(group_commands(&Vec::new()).is_empty());
}

#[test]
fn renamed_categories_group_by_new_name() {
    let cmds = vec![cmd("a", None, Some("x")), cmd("b", None, Some("y"))];
    let keys = vec![Some("Shared".to_string()), Some("Shared".to_string())];
    let gates = vec![open_gate(), open_gate()];
    let pages = build_catalog(&cmds, &keys, &gates, "!").unwrap();
    assert_eq!(labels(&pages), vec!["Shared"]);
}

#[test]
fn hidden_command_never_listed() {
    let mut hidden = cmd("secret", Some("Hidden"), Some("Fun"));
    hidden.hidden = true;
    let cmds = vec![hidden, cmd("echo", Some("Echoes"), Some("Fun"))];
    let keys = category_keys(&cmds);
    // A hidden command's filter is never consulted, so its failure does not count.
    let gates = vec![gate(FilterOutcome::Failed("boom".to_string()), vec![]), open_gate()];
    let pages = build_catalog(&cmds, &keys, &gates, "!").unwrap();
    assert_eq!(pages.len(), 1);
    assert_eq!(pages[0].body, "/echo - Echoes\n");
    assert!(!pages[0].body.contains("secret"));
}

#[test]
fn category_with_no_visible_command_still_has_a_page() {
    let mut hidden = cmd("secret", None, Some("Staff"));
    hidden.hidden = true;
    let cmds = vec![hidden];
    let keys = category_keys(&cmds);
    let pages = build_catalog(&cmds, &keys, &vec![open_gate()], "!").unwrap();
    assert_eq!(labels(&pages), vec!["Staff"]);
    assert_eq!(pages[0].body, "");
}

#[test]
fn denied_check_before_allowed_excludes() {
    let cmds = vec![cmd("ban", None, Some("Mod"))];
    let keys = category_keys(&cmds);
    let gates = vec![gate(FilterOutcome::Unfiltered, vec![CheckOutcome::Denied, CheckOutcome::Allowed])];
    let pages = build_catalog(&cmds, &keys, &gates, "!").unwrap();
    assert_eq!(pages[0].body, "");
}

#[test]
fn allowed_check_includes() {
    let cmds = vec![cmd("ban", None, Some("Mod"))];
    let keys = category_keys(&cmds);
    let gates = vec![gate(FilterOutcome::Unfiltered, vec![CheckOutcome::Allowed])];
    let pages = build_catalog(&cmds, &keys, &gates, "!").unwrap();
    assert_eq!(pages[0].body, "/ban - *No description available yet*\n");
}

#[test]
fn errored_check_hides_without_failing() {
    let cmds = vec![cmd("ban", None, Some("Mod")), cmd("kick", None, Some("Mod"))];
    let keys = category_keys(&cmds);
    let gates = vec![
        gate(FilterOutcome::Unfiltered, vec![CheckOutcome::Errored, CheckOutcome::Allowed]),
        open_gate(),
    ];
    let pages = build_catalog(&cmds, &keys, &gates, "!").unwrap();
    assert_eq!(pages[0].body, "/kick - *No description available yet*\n");
}

#[test]
fn checks_pass_short_circuits() {
    assert!(checks_pass(&vec![]));
    assert!(checks_pass(&vec![CheckOutcome::Allowed]));
    assert!(!checks_pass(&vec![CheckOutcome::Denied, CheckOutcome::Allowed]));
    assert!(!checks_pass(&vec![CheckOutcome::Allowed, CheckOutcome::Errored]));
}

#[test]
fn filter_drop_skips_and_failure_aborts() {
    let cmds = vec![cmd("a", None, Some("A")), cmd("b", None, Some("B")), cmd("c", None, Some("A"))];
    let keys = category_keys(&cmds);
    let gates = vec![gate(FilterOutcome::Drop, vec![]), open_gate(), gate(FilterOutcome::Keep, vec![])];
    let pages = build_catalog(&cmds, &keys, &gates, "!").unwrap();
    assert_eq!(pages[0].body, "/c - *No description available yet*\n");

    // Visit order is category order: "c" (category A) comes before "b".
    let gates = vec![
        open_gate(),
        gate(FilterOutcome::Failed("second".to_string()), vec![]),
        gate(FilterOutcome::Failed("first".to_string()), vec![]),
    ];
    match build_catalog(&cmds, &keys, &gates, "!") {
        Err(e) => assert_eq!(e, "first"),
        Ok(_) => panic!("a failing filter must abort the catalog"),
    }
}

#[test]
fn subcommands_listed_under_parent() {
    let mut parent = cmd("role", Some("Roles"), Some("Mod"));
    parent.subcommands = vec![sub("add", Some("Adds"), false), sub("ghost", None, true), sub("rm", None, false)];
    assert_eq!(
        entry_text_of(&parent, "?"),
        "/role - Roles\n**Subcommands**\n/role add | ?role add - Adds\n/role rm | ?role rm - *No description available yet*\n"
    );
}

#[test]
fn context_menu_command_not_expanded() {
    let mut c = cmd("Report", None, None);
    c.context_menu = Some("Message".to_string());
    c.subcommands = vec![sub("x", None, false)];
    assert_eq!(
        entry_text_of(&c, "!"),
        "/Report - *No description available yet*\n*This command is a context menu command of type Message*\n"
    );
}

#[test]
fn empty_registry_gives_no_pages() {
    let pages = build_catalog(&Vec::new(), &Vec::new(), &Vec::new(), "!").unwrap();
    assert!(pages.is_empty());
}
