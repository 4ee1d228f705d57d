use help_nav::catalog::{CommandInfo, ParamInfo, SubcommandInfo};
use help_nav::detail::command_detail;

fn param(name: &str, desc: Option<&str>) -> ParamInfo {
    ParamInfo { name: name.to_string(), description: desc.map(|d| d.to_string()) }
}

fn registry() -> Vec<CommandInfo> {
    vec![
        CommandInfo {
            name: "ping".to_string(),
            description: None,
            category: None,
            hidden: false,
            context_menu: None,
            parameters: vec![],
            subcommands: vec![],
        },
        CommandInfo {
            name: "role".to_string(),
            description: Some("Manage roles".to_string()),
            category: Some("Mod".to_string()),
            hidden: false,
            context_menu: None,
            parameters: vec![param("user", Some("Who")), param("reason", None)],
            subcommands: vec![SubcommandInfo {
                name: "add".to_string(),
                description: None,
                hidden: true,
                parameters: vec![param("role", Some("Which role")), param("until", None)],
            }],
        },
    ]
}

#[test]
fn detail_of_known_command() {
    let d = command_detail(&registry(), "role").unwrap();
    assert_eq!(d.title, "Help for role");
    assert_eq!(d.description, "Manage roles");
    assert_eq!(d.fields.len(), 2);
    assert_eq!(d.fields[0].name, "Parameters");
    assert_eq!(d.fields[0].value, "user - Who\nreason - No description available yet");
    assert_eq!(d.fields[1].name, "add");
    assert_eq!(
        d.fields[1].value,
        "No description available yet\n*role* - Which role\n*until* - No description available yet"
    );
}

#[test]
fn detail_without_parameters() {
    let d = command_detail(&registry(), "ping").unwrap();
    assert_eq!(d.description, "No description available yet");
    assert_eq!(d.fields.len(), 1);
    assert_eq!(d.fields[0].value, "");
}

#[test]
fn unknown_command_has_no_detail() {
    assert!(command_detail(&registry(), "nope").is_none());
    assert!(command_detail(&Vec::new(), "ping").is_none());
}
