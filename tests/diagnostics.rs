use uff::document::Diagnostic;
use uff::parser::{parse_config, ItemContents, Menu};

const HOME: &str = "/home/tester";

fn fails(src: &str) -> Diagnostic {
    match parse_config(src, HOME) {
        Ok(_) => panic!("expected a diagnostic"),
        Err(d) => d,
    }
}

fn parses(src: &str) -> Menu {
    match parse_config(src, HOME) {
        Ok(m) => m,
        Err(d) => panic!("unexpected diagnostic: {}", d.message),
    }
}

#[test]
fn unexpected_node_in_menu() {
    let d = fails("frobnicate \"x\"\n");
    assert_eq!(d.message, "unexpected node in menu: frobnicate");
    assert_eq!(d.label, Some("this".to_string()));
    assert_eq!(d.span.offset, 0);
}

#[test]
fn unexpected_node_in_program() {
    let d = fails("program \"A\" {\n    shell \"x\"\n    command \"a\"\n}\n");
    assert_eq!(d.message, "unexpected node in program: shell");
    assert_eq!(d.label, Some("this".to_string()));
}

#[test]
fn program_without_command() {
    let d = fails("program \"A\" {\n    icon \"x\"\n}\n");
    assert_eq!(d.message, "program should have a command");
    assert_eq!(d.label, Some("here".to_string()));
}

#[test]
fn item_without_children() {
    let d = fails("program \"A\"\n");
    assert_eq!(d.message, "program should have children");
    assert_eq!(d.label, Some("here".to_string()));
    assert_eq!(d.span.len, 0);
}

#[test]
fn named_parameter_is_refused() {
    let d = fails("fuzzel-args \"--a\" width=\"3\"\n");
    assert_eq!(d.message, "fuzzel-args should not have any named parameters");
    assert_eq!(d.label, Some("remove this name".to_string()));
    assert_eq!(d.span.offset, 18);
}

#[test]
fn non_string_argument_suggests_quotes() {
    let d = fails("fuzzel-args 12\n");
    assert_eq!(d.message, "argument should be a string");
    assert_eq!(d.label, Some("this".to_string()));
    assert_eq!(d.help, Some("try wrapping it in quotes".to_string()));
}

#[test]
fn one_argument_missing() {
    let d = fails("icon-dir\n");
    assert_eq!(d.message, "icon-dir should have exactly one argument");
    assert_eq!(d.label, Some("here".to_string()));
    assert_eq!(d.span.offset, 8);
    assert_eq!(d.span.len, 0);
}

#[test]
fn one_argument_too_many() {
    let d = fails("icon-dir \"/a\" \"/b\"\n");
    assert_eq!(d.message, "icon-dir should have exactly one argument");
    assert_eq!(d.label, Some("remove this".to_string()));
    let d = fails("icon-dir \"/a\" \"/b\" \"/c\"\n");
    assert_eq!(d.label, Some("remove these".to_string()));
}

#[test]
fn many_arguments_missing() {
    let d = fails("fuzzel-args\n");
    assert_eq!(d.message, "fuzzel-args should have arguments");
    assert_eq!(d.label, Some("here".to_string()));
    assert_eq!(d.span.offset, 11);
}

#[test]
fn leaf_with_children() {
    let d = fails("icon-dir \"/a\" {\n    x \"y\"\n}\n");
    assert_eq!(d.message, "icon-dir should not have any children");
    assert_eq!(d.label, Some("remove this".to_string()));
}

#[test]
fn config_block_with_arguments() {
    let d = fails("fuzzel-config \"x\" {\n    width \"3\"\n}\n");
    assert_eq!(d.message, "fuzzel-config should not have any arguments");
    assert_eq!(d.label, Some("these".to_string()));
}

#[test]
fn config_block_missing() {
    let d = fails("fuzzel-config\n");
    assert_eq!(d.message, "fuzzel-config should have children");
}

#[test]
fn malformed_kdl_is_refused() {
    let d = fails("program \"A\" {\n");
    assert!(!d.message.is_empty());
}

#[test]
fn icon_errors_come_before_contents() {
    let d = fails("program \"A\" {\n    frob \"x\"\n    icon\n}\n");
    assert_eq!(d.message, "icon should have exactly one argument");
}

#[test]
fn redefinitions_keep_the_last() {
    let m = parses(
        "fuzzel-args \"--a\"\nfuzzel-args \"--b\" \"--c\"\nfuzzel-config {\n    x \"1\"\n}\nfuzzel-config {\n    y \"2\"\n}\nprogram \"P\" {\n    icon \"i1\"\n    icon \"i2\"\n    command \"a\"\n    command \"b\" \"c\"\n}\n",
    );
    assert_eq!(m.fuzzel_args, vec!["--b", "--c"]);
    assert_eq!(m.fuzzel_config, vec![("y".to_string(), "2".to_string())]);
    assert_eq!(m.items[0].icon, Some("i2".to_string()));
    match &m.items[0].contents {
        ItemContents::Program(p) => assert_eq!(p.command, vec!["b", "c"]),
        ItemContents::Menu(_) => panic!("expected a program"),
    }
}

#[test]
fn icon_dirs_accumulate_with_home_expanded() {
    let m = parses("icon-dir \"~/icons\"\nicon-dir \"/usr/share/pixmaps\"\n");
    assert_eq!(m.icon_dirs, vec!["/home/tester/icons", "/usr/share/pixmaps"]);
    assert!(m.items.is_empty());
}

#[test]
fn icon_at_the_root_is_unexpected() {
    let d = fails("icon \"x\"\n");
    assert_eq!(d.message, "unexpected node in menu: icon");
    assert_eq!(d.span.offset, 0);
}

#[test]
fn icon_of_a_menu_item_is_accepted() {
    let m = parses("menu \"M\" {\n    icon \"folder\"\n    program \"p\" {\n        command \"p\"\n    }\n}\n");
    assert_eq!(m.items[0].icon, Some("folder".to_string()));
}
