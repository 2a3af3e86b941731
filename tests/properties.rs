use uff::compile::{compute_config, count_menus, is_fresh, reuse_cached};
use uff::config::{
    default_config_path, default_fuzzel_config_path, make_cache_path, make_fuzzel_cache_path,
    make_fuzzel_config_path, root_frame, select_item, ComputedItem,
    ComputedProgram, IdGenerator, InheritanceFrame, PresetPaths, ResolvedItem, ResolvedMenu,
};
use uff::digest::content_hash;
use uff::flatten::flatten_resolved_menu;
use uff::icons::{is_icon_file, resolve_icon, search_for_icon};
use uff::parser::{parse_config, Item, ItemContents, Menu, Program};
use uff::resolve::{build_resolved_menu, item_dirs, search_dirs};
use uff::text::{decimal_string, expand_home, join};

fn paths(preset: &str) -> PresetPaths {
    PresetPaths {
        preset_name: preset.to_string(),
        cache_dir: "/cache/uff".to_string(),
        default_fuzzel_config: "/config/fuzzel/fuzzel.ini".to_string(),
        home: "/home/tester".to_string(),
    }
}

fn empty_frame() -> InheritanceFrame {
    InheritanceFrame { icon_dirs: vec![], fuzzel_config_id: None }
}

fn program(name: &str, cmd: &str) -> Item {
    Item {
        name: name.to_string(),
        icon: None,
        contents: ItemContents::Program(Program { command: vec![cmd.to_string()] }),
    }
}

fn submenu(name: &str, config: Vec<(&str, &str)>, items: Vec<Item>) -> Item {
    Item {
        name: name.to_string(),
        icon: None,
        contents: ItemContents::Menu(Menu {
            fuzzel_args: vec![],
            fuzzel_config: config.into_iter().map(|(k, v)| (k.to_string(), v.to_string())).collect(),
            icon_dirs: vec![],
            items,
        }),
    }
}

fn compile(src: &str) -> (uff::config::ComputedConfig, Vec<uff::config::ConfigFile>) {
    let hash = content_hash(src);
    match compute_config(src, &hash, &paths("demo"), empty_frame()) {
        Ok(r) => r,
        Err(d) => panic!("unexpected diagnostic: {}", d.message),
    }
}

#[test]
fn single_program_scenario() {
    let (cfg, files) = compile("program \"Open\" {\n    command \"xdg-open\" \"file.txt\"\n}\n");
    assert!(files.is_empty());
    assert_eq!(cfg.initial_menu.input, b"Open\n");
    assert_eq!(cfg.initial_menu.items_offset, 0);
    assert_eq!(cfg.items.len(), 1);
    match select_item(&cfg.items, &cfg.initial_menu, 0) {
        Some(ComputedItem::Program(p)) => assert_eq!(p.command, vec!["xdg-open", "file.txt"]),
        _ => panic!("expected the program"),
    }
    assert!(select_item(&cfg.items, &cfg.initial_menu, 1).is_none());
}

#[test]
fn program_and_submenu_flatten_scenario() {
    let resolved = ResolvedMenu {
        args: vec![],
        input: b"A\nB\n".to_vec(),
        items: vec![
            ResolvedItem::Program(ComputedProgram { command: vec!["a".to_string()] }),
            ResolvedItem::Menu(ResolvedMenu {
                args: vec![],
                input: b"C\n".to_vec(),
                items: vec![ResolvedItem::Program(ComputedProgram { command: vec!["c".to_string()] })],
            }),
        ],
    };
    let mut items = Vec::new();
    let root = flatten_resolved_menu(&resolved, &mut items);
    assert_eq!(root.items_offset, 0);
    assert_eq!(items.len(), 3);
    assert!(matches!(&items[0], ComputedItem::Program(p) if p.command == vec!["a"]));
    assert!(matches!(&items[1], ComputedItem::Menu(m) if m.items_offset == 2 && m.input == b"C\n"));
    assert!(matches!(&items[2], ComputedItem::Program(p) if p.command == vec!["c"]));
}

#[test]
fn blocks_do_not_overlap() {
    let src = "menu \"A\" {\n    menu \"B\" {\n        program \"x\" {\n            command \"x\"\n        }\n    }\n    program \"y\" {\n        command \"y\"\n    }\n}\nmenu \"C\" {\n    program \"z\" {\n        command \"z\"\n    }\n}\n";
    let (cfg, _) = compile(src);
    let mut blocks = vec![(cfg.initial_menu.items_offset, cfg.initial_menu.input.iter().filter(|b| **b == b'\n').count())];
    for item in &cfg.items {
        if let ComputedItem::Menu(m) = item {
            blocks.push((m.items_offset, m.input.iter().filter(|b| **b == b'\n').count()));
        }
    }
    let mut covered = vec![0; cfg.items.len()];
    for (offset, k) in &blocks {
        assert!(offset + k <= cfg.items.len());
        for slot in &mut covered[*offset..offset + k] {
            *slot += 1;
        }
    }
    assert!(covered.iter().all(|c| *c == 1));
    assert_eq!(blocks, vec![(0, 2), (2, 2), (5, 1), (4, 1)]);
}

#[test]
fn ids_are_pre_order() {
    let menu = Menu {
        fuzzel_args: vec![],
        fuzzel_config: vec![],
        icon_dirs: vec![],
        items: vec![
            submenu("A", vec![], vec![submenu("B", vec![], vec![program("x", "x")])]),
            submenu("C", vec![], vec![program("y", "y")]),
        ],
    };
    assert_eq!(count_menus(&menu), Some(4));
    let mut id_gen = IdGenerator::new();
    let mut writes = Vec::new();
    let r = build_resolved_menu(&menu, &[empty_frame()], &mut id_gen, &paths("ids"), &mut writes);
    assert_eq!(id_gen.counter, 4);
    let cache_of = |m: &ResolvedMenu| m.args.last().unwrap().clone();
    assert_eq!(cache_of(&r), "/cache/uff/ids0.fuzzel.cache");
    let ResolvedItem::Menu(a) = &r.items[0] else { panic!("expected A") };
    let ResolvedItem::Menu(b) = &a.items[0] else { panic!("expected B") };
    let ResolvedItem::Menu(c) = &r.items[1] else { panic!("expected C") };
    assert_eq!(cache_of(a), "/cache/uff/ids1.fuzzel.cache");
    assert_eq!(cache_of(b), "/cache/uff/ids2.fuzzel.cache");
    assert_eq!(cache_of(c), "/cache/uff/ids3.fuzzel.cache");
}

#[test]
fn config_chain_skips_plain_menu() {
    let menu = Menu {
        fuzzel_args: vec![],
        fuzzel_config: vec![("width".to_string(), "30".to_string())],
        icon_dirs: vec![],
        items: vec![submenu(
            "Middle",
            vec![],
            vec![submenu("Leaf", vec![("lines", "5")], vec![program("x", "x")])],
        )],
    };
    let mut id_gen = IdGenerator::new();
    let mut writes = Vec::new();
    let r = build_resolved_menu(&menu, &[empty_frame()], &mut id_gen, &paths("chain"), &mut writes);
    assert_eq!(writes.len(), 2);
    assert_eq!(writes[0].path, "/cache/uff/chain0.fuzzel.ini");
    assert_eq!(writes[0].contents, "include=/config/fuzzel/fuzzel.ini\nwidth=30\n");
    assert_eq!(writes[1].path, "/cache/uff/chain2.fuzzel.ini");
    assert_eq!(writes[1].contents, "include=/cache/uff/chain0.fuzzel.ini\nlines=5\n");
    let ResolvedItem::Menu(middle) = &r.items[0] else { panic!("expected the middle menu") };
    assert_eq!(
        middle.args,
        vec!["--config", "/cache/uff/chain0.fuzzel.ini", "--cache", "/cache/uff/chain1.fuzzel.cache"]
    );
}

#[test]
fn nearer_icon_dirs_come_first() {
    let stack = vec![
        InheritanceFrame { icon_dirs: vec!["/root-dir".to_string()], fuzzel_config_id: None },
        InheritanceFrame { icon_dirs: vec!["/parent-dir".to_string()], fuzzel_config_id: None },
    ];
    let menu = Menu {
        fuzzel_args: vec![],
        fuzzel_config: vec![],
        icon_dirs: vec!["/own".to_string()],
        items: vec![],
    };
    let dirs = search_dirs(&menu, &stack);
    assert_eq!(dirs, vec!["/own", "/parent-dir", "/root-dir"]);
    let mut item = submenu("S", vec![], vec![]);
    if let ItemContents::Menu(m) = &mut item.contents {
        m.icon_dirs = vec!["/s1".to_string(), "/s2".to_string()];
    }
    assert_eq!(item_dirs(&item, &dirs), vec!["/s2", "/s1", "/own", "/parent-dir", "/root-dir"]);
    assert_eq!(item_dirs(&program("p", "p"), &dirs), dirs);
}

#[test]
fn icon_line_format() {
    let menu = Menu {
        fuzzel_args: vec![],
        fuzzel_config: vec![],
        icon_dirs: vec![],
        items: vec![
            Item {
                name: "Files".to_string(),
                icon: Some("~/pics/files.png".to_string()),
                contents: ItemContents::Program(Program { command: vec!["nautilus".to_string()] }),
            },
            program("Plain", "true"),
        ],
    };
    let mut id_gen = IdGenerator::new();
    let mut writes = Vec::new();
    let r = build_resolved_menu(&menu, &[empty_frame()], &mut id_gen, &paths("icons"), &mut writes);
    assert_eq!(r.input, b"Files\0icon\x1f/home/tester/pics/files.png\nPlain\n".to_vec());
}

#[test]
fn compiling_twice_gives_the_same_result() {
    let src = "fuzzel-config {\n    width \"9\"\n}\nmenu \"A\" {\n    program \"x\" {\n        command \"x\" \"-v\"\n    }\n}\n";
    let (a, fa) = compile(src);
    let (b, fb) = compile(src);
    assert_eq!(a.hash, b.hash);
    assert_eq!(a.initial_menu.args, b.initial_menu.args);
    assert_eq!(a.initial_menu.input, b.initial_menu.input);
    assert_eq!(a.items.len(), b.items.len());
    for (x, y) in a.items.iter().zip(b.items.iter()) {
        match (x, y) {
            (ComputedItem::Menu(m), ComputedItem::Menu(n)) => {
                assert_eq!(m.args, n.args);
                assert_eq!(m.input, n.input);
                assert_eq!(m.items_offset, n.items_offset);
            },
            (ComputedItem::Program(p), ComputedItem::Program(q)) => assert_eq!(p.command, q.command),
            _ => panic!("items differ"),
        }
    }
    assert_eq!(fa.len(), 1);
    assert_eq!(fa[0].path, fb[0].path);
    assert_eq!(fa[0].contents, fb[0].contents);
}

#[test]
fn cache_is_reused_only_for_the_same_source() {
    let src = "program \"A\" {\n    command \"a\"\n}\n";
    let (cfg, _) = compile(src);
    let stamp = content_hash(src);
    assert!(is_fresh(&cfg, &stamp));
    let kept = reuse_cached(Some(cfg), &stamp).expect("same source reuses the cache");
    assert_eq!(kept.initial_menu.input, b"A\n");
    let other = content_hash("program \"B\" {\n    command \"b\"\n}\n");
    assert!(reuse_cached(Some(kept), &other).is_none());
    assert!(reuse_cached(None, &stamp).is_none());
}

#[test]
fn stamp_is_sha256_prefix() {
    assert_eq!(content_hash("abc"), [0xba, 0x78, 0x16, 0xbf, 0x8f, 0x01, 0xcf, 0xea]);
}

#[test]
fn icon_file_matching() {
    assert!(is_icon_file("/usr/share/icons/firefox.png", "firefox"));
    assert!(is_icon_file("/usr/share/icons/hicolor/firefox.svg", "firefox"));
    assert!(is_icon_file("firefox.png", "firefox"));
    assert!(!is_icon_file("/usr/share/icons/firefox.jpg", "firefox"));
    assert!(!is_icon_file("/usr/share/firefox.png/readme", "firefox"));
    assert!(!is_icon_file("/usr/share/icons/.png", ""));
    assert!(!is_icon_file("/usr/share/icons/myfirefox.png", "firefox"));
}

#[test]
fn icon_lookup_falls_back_to_the_reference() {
    assert_eq!(search_for_icon("a/b", &vec!["/".to_string()]), None);
    let dirs = vec!["/nonexistent-icon-dir-for-tests".to_string()];
    assert_eq!(search_for_icon("firefox", &dirs), None);
    assert_eq!(resolve_icon("~app", &dirs, "/home/t"), "/home/tapp");
    assert_eq!(resolve_icon("~/pics/a.png", &vec![], "/home/t"), "/home/t/pics/a.png");
}

#[test]
fn text_helpers() {
    assert_eq!(decimal_string(0), "0");
    assert_eq!(decimal_string(1234567), "1234567");
    assert_eq!(expand_home("~/a~b", "/h"), "/h/a/hb");
    assert_eq!(join("/a", "b"), "/a/b");
    assert_eq!(join("/a/", "b"), "/a/b");
    assert_eq!(join("", "b"), "b");
}

#[test]
fn menu_files_are_unique_per_preset_and_id() {
    assert_eq!(make_fuzzel_cache_path(11, &paths("a")), "/cache/uff/a11.fuzzel.cache");
    assert_eq!(make_fuzzel_cache_path(1, &paths("a1")), "/cache/uff/a1_1.fuzzel.cache");
    assert_eq!(make_fuzzel_config_path(1, &paths("a1_")), "/cache/uff/a1__1.fuzzel.ini");
    assert_eq!(make_fuzzel_config_path(1, &paths("my.preset")), "/cache/uff/my.preset1.fuzzel.ini");
    assert_ne!(make_fuzzel_cache_path(11, &paths("a")), make_fuzzel_cache_path(1, &paths("a1")));
}

#[test]
fn root_frame_defaults() {
    let f = root_frame("", "", "/home/u");
    assert_eq!(f.icon_dirs, vec!["/usr/local/share/", "/usr/share/", "/home/u/.local/share/"]);
    assert_eq!(f.fuzzel_config_id, None);
    let f = root_frame("/a::/b", "/data", "/home/u");
    assert_eq!(f.icon_dirs, vec!["/a", "", "/b", "/data"]);
}

#[test]
fn default_paths() {
    assert_eq!(default_config_path("/home/u/.config"), "/home/u/.config/uff/default.kdl");
    assert_eq!(default_fuzzel_config_path("/home/u/.config"), "/home/u/.config/fuzzel/fuzzel.ini");
    assert_eq!(make_cache_path(&paths("work")), "/cache/uff/work.cache");
}

#[test]
fn parse_then_compile_nested() {
    let menu = parse_config("menu \"Sub\" {\n    icon-dir \"/icons\"\n    program \"x\" {\n        command \"x\"\n    }\n}\n", "/h").unwrap();
    let ItemContents::Menu(sub) = &menu.items[0].contents else { panic!("expected a submenu") };
    assert_eq!(sub.icon_dirs, vec!["/icons"]);
    let (cfg, _) = compile("menu \"Sub\" {\n    program \"x\" {\n        command \"x\"\n    }\n}\n");
    assert_eq!(cfg.items.len(), 2);
    match select_item(&cfg.items, &cfg.initial_menu, 0) {
        Some(ComputedItem::Menu(m)) => {
            assert_eq!(m.items_offset, 1);
            assert_eq!(m.args, vec!["--cache", "/cache/uff/demo1.fuzzel.cache"]);
        },
        _ => panic!("expected the submenu"),
    }
}
