use dotlink::{
    compare, declared_entries, parse_document, parse_linkfile, Entry, Linkfile, LinkfileSet,
    LoadError, Order, PathResolver, Value,
};

fn entry(src: &str, dst: &str) -> Entry {
    Entry { src: src.to_string(), dst: dst.to_string() }
}

fn resolver() -> PathResolver {
    PathResolver::new("/home/u".to_string(), '/')
}

#[test]
fn scenario_declared_entry() {
    let entries = parse_linkfile("vimrc = \"~/.vimrc\"\n", "/repo", &resolver()).unwrap();
    assert_eq!(entries, vec![entry("/repo/vimrc", "/home/u/.vimrc")]);
}

#[test]
fn scenario_number_is_skipped() {
    let entries = parse_linkfile("count = 3\n", "/repo", &resolver()).unwrap();
    assert_eq!(entries.len(), 0);
    let mixed = parse_linkfile("count = 3\nvimrc = \"~/.vimrc\"\n", "/repo", &resolver()).unwrap();
    assert_eq!(mixed, vec![entry("/repo/vimrc", "/home/u/.vimrc")]);
}

#[test]
fn other_kinds_of_values_are_skipped() {
    let content = "flag = true\nlist = [\"a\", \"b\"]\nratio = 1.5\nwhen = 1979-05-27\n\
                   zshrc = \".zshrc\"\n[section]\ninner = \"x\"\n";
    let entries = parse_linkfile(content, "/repo", &resolver()).unwrap();
    assert_eq!(entries, vec![entry("/repo/zshrc", "/home/u/.zshrc")]);
}

#[test]
fn entries_keep_the_order_of_the_declarations() {
    let content = "zshrc = \"~/.zshrc\"\nbashrc = \"~/.bashrc\"\nmuttrc = \"~/.muttrc\"\n";
    let entries = parse_linkfile(content, "/repo", &resolver()).unwrap();
    assert_eq!(
        entries,
        vec![
            entry("/repo/zshrc", "/home/u/.zshrc"),
            entry("/repo/bashrc", "/home/u/.bashrc"),
            entry("/repo/muttrc", "/home/u/.muttrc"),
        ]
    );
}

#[test]
fn empty_linkfile_declares_nothing() {
    assert_eq!(parse_linkfile("", "/repo", &resolver()).unwrap(), vec![]);
}

#[test]
fn malformed_linkfile_is_a_parse_error() {
    assert_eq!(parse_linkfile("vimrc = ", "/repo", &resolver()), Err(LoadError::ConfigParse));
    assert_eq!(parse_linkfile("a = 1\na = 2\n", "/repo", &resolver()), Err(LoadError::ConfigParse));
    assert_eq!(parse_linkfile("= = =", "/repo", &resolver()), Err(LoadError::ConfigParse));
}

#[test]
fn undefined_variable_fails_the_whole_linkfile() {
    let content = "vimrc = \"~/.vimrc\"\nzshrc = \"$nowhere/.zshrc\"\nbashrc = \"$other\"\n";
    assert_eq!(
        parse_linkfile(content, "/repo", &resolver()),
        Err(LoadError::PathExpansion { variable: "nowhere".to_string() })
    );
}

#[test]
fn parse_document_distinguishes_values() {
    let items = parse_document("a = \"x\"\nb = [\"y\", 2, \"z\"]\nc = 7\n").unwrap();
    assert_eq!(items.len(), 3);
    assert_eq!(items[0].0, "a");
    assert!(matches!(&items[0].1, Value::Text(text) if text == "x"));
    assert_eq!(items[1].0, "b");
    match &items[1].1 {
        Value::Array(elements) => {
            assert_eq!(elements, &vec![Some("y".to_string()), None, Some("z".to_string())]);
        }
        other => panic!("unexpected value {:?}", other),
    }
    assert_eq!(items[2].0, "c");
    assert!(matches!(&items[2].1, Value::Other));
}

#[test]
fn parse_document_keeps_declaration_order() {
    let items = parse_document("z = \"1\"\na = \"2\"\nm = \"3\"\n").unwrap();
    let keys: Vec<&str> = items.iter().map(|item| item.0.as_str()).collect();
    assert_eq!(keys, vec!["z", "a", "m"]);
}

#[test]
fn parse_document_rejects_what_is_no_document() {
    assert!(matches!(parse_document("not a document"), Err(LoadError::ConfigParse)));
}

#[test]
fn find_returns_first_item_of_key() {
    let items = vec![
        ("a".to_string(), Value::Other),
        ("b".to_string(), Value::Text("first".to_string())),
        ("b".to_string(), Value::Text("second".to_string())),
    ];
    assert!(matches!(dotlink::document::find(&items, "b"), Some(Value::Text(t)) if t == "first"));
    assert!(matches!(dotlink::document::find(&items, "a"), Some(Value::Other)));
    assert!(dotlink::document::find(&items, "c").is_none());
}

#[test]
fn declared_entries_of_given_items() {
    let items = vec![
        ("meta".to_string(), Value::Other),
        ("vimrc".to_string(), Value::Text("~/.vimrc".to_string())),
        ("names".to_string(), Value::Array(vec![Some("x".to_string())])),
        ("tmux.conf".to_string(), Value::Text(".tmux.conf".to_string())),
    ];
    let entries = declared_entries(&items, "/repo", &resolver()).unwrap();
    assert_eq!(
        entries,
        vec![entry("/repo/vimrc", "/home/u/.vimrc"), entry("/repo/tmux.conf", "/home/u/.tmux.conf")]
    );
}

#[test]
fn declared_entries_fail_at_first_undefined_variable() {
    let items = vec![
        ("a".to_string(), Value::Text("$first".to_string())),
        ("b".to_string(), Value::Text("$second".to_string())),
    ];
    assert_eq!(
        declared_entries(&items, "/repo", &resolver()),
        Err(LoadError::PathExpansion { variable: "first".to_string() })
    );
}

#[test]
fn compare_orders_strings() {
    assert_eq!(compare("a", "b"), Order::Before);
    assert_eq!(compare("b", "a"), Order::After);
    assert_eq!(compare("abc", "abc"), Order::Same);
    assert_eq!(compare("", ""), Order::Same);
    assert_eq!(compare("", "a"), Order::Before);
    assert_eq!(compare("ab", "abc"), Order::Before);
    assert_eq!(compare("abc", "ab"), Order::After);
    assert_eq!(compare("Z", "a"), Order::Before);
    assert_eq!(compare("a\u{e9}", "a\u{4e16}"), Order::Before);
    assert_eq!(compare("\u{10000}", "\u{ffff}"), Order::After);
}

#[test]
fn compare_agrees_with_string_order() {
    let samples = ["", "a", "ab", "b", "B", "\u{e9}", "\u{4e16}", "\u{10348}", "a/b", "a.b"];
    for a in samples.iter() {
        for b in samples.iter() {
            let expected = if a < b {
                Order::Before
            } else if a == b {
                Order::Same
            } else {
                Order::After
            };
            assert_eq!(compare(a, b), expected);
        }
    }
}

fn names(set: &LinkfileSet) -> Vec<String> {
    let mut names = Vec::new();
    for i in 0..set.len() {
        names.push(set.file(i).name.clone());
    }
    names
}

#[test]
fn set_keeps_linkfiles_in_order_of_names() {
    let mut set = LinkfileSet::new();
    assert_eq!(set.len(), 0);
    set.insert(Linkfile { name: "m".to_string(), entries: vec![] });
    set.insert(Linkfile { name: "z".to_string(), entries: vec![] });
    set.insert(Linkfile { name: "a".to_string(), entries: vec![entry("s", "d")] });
    set.insert(Linkfile { name: "n".to_string(), entries: vec![] });
    assert_eq!(names(&set), vec!["a", "m", "n", "z"]);
    assert_eq!(set.file(0).entries, vec![entry("s", "d")]);
}

#[test]
fn set_replaces_linkfile_of_same_name() {
    let mut set = LinkfileSet::new();
    set.insert(Linkfile { name: "a".to_string(), entries: vec![entry("s1", "d1")] });
    set.insert(Linkfile { name: "b".to_string(), entries: vec![entry("s2", "d2")] });
    set.insert(Linkfile { name: "a".to_string(), entries: vec![entry("s3", "d3")] });
    assert_eq!(names(&set), vec!["a", "b"]);
    assert_eq!(set.file(0).entries, vec![entry("s3", "d3")]);
    assert_eq!(set.file(1).entries, vec![entry("s2", "d2")]);
}
