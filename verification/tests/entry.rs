use dotlink::{Entry, EntryStatus, Node, PathResolver};
use dotlink::LoadError;

fn entry(src: &str, dst: &str) -> Entry {
    Entry { src: src.to_string(), dst: dst.to_string() }
}

#[test]
fn status_of_absent_destination_is_unlinked() {
    let e = entry("/repo/vimrc", "/home/u/.vimrc");
    assert_eq!(e.status(&Node::Absent), EntryStatus::Unlinked);
}

#[test]
fn status_of_link_to_source_is_healthy() {
    let e = entry("/repo/vimrc", "/home/u/.vimrc");
    assert_eq!(e.status(&Node::Link("/repo/vimrc".to_string())), EntryStatus::Healthy);
}

#[test]
fn status_of_link_elsewhere_is_mismatched() {
    let e = entry("/repo/vimrc", "/home/u/.vimrc");
    assert_eq!(e.status(&Node::Link("/other/path".to_string())), EntryStatus::Mismatched);
}

#[test]
fn status_of_file_is_occupied() {
    let e = entry("/repo/vimrc", "/home/u/.vimrc");
    assert_eq!(e.status(&Node::Occupant), EntryStatus::Occupied);
}

#[test]
fn status_compares_targets_exactly() {
    let e = entry("/repo/vimrc", "/home/u/.vimrc");
    assert_eq!(e.status(&Node::Link("/repo/vimrc/".to_string())), EntryStatus::Mismatched);
    assert_eq!(e.status(&Node::Link("/repo//vimrc".to_string())), EntryStatus::Mismatched);
}

#[test]
fn status_depends_on_source_and_node_only() {
    let a = entry("/repo/vimrc", "/home/u/.vimrc");
    let b = entry("/repo/vimrc", "/somewhere/else");
    let nodes = [
        Node::Absent,
        Node::Occupant,
        Node::Link("/repo/vimrc".to_string()),
        Node::Link("/x".to_string()),
    ];
    for node in nodes.iter() {
        assert_eq!(a.status(node), b.status(node));
        assert_eq!(a.status(node), a.status(node));
    }
}

#[test]
fn resolve_expands_both_paths() {
    let resolver = PathResolver::new("/home/u".to_string(), '/');
    let e = Entry::resolve(&resolver, "/repo", "vimrc", "~/.vimrc").unwrap();
    assert_eq!(e, entry("/repo/vimrc", "/home/u/.vimrc"));
}

#[test]
fn resolve_places_relative_destination_under_home() {
    let resolver = PathResolver::new("/home/u".to_string(), '/');
    let e = Entry::resolve(&resolver, "/repo", "gitconfig", ".gitconfig").unwrap();
    assert_eq!(e, entry("/repo/gitconfig", "/home/u/.gitconfig"));
}

#[test]
fn resolve_expands_variables_of_the_directory() {
    let mut resolver = PathResolver::new("/home/u".to_string(), '/');
    resolver.define("dotdir".to_string(), "/srv/dots".to_string());
    let e = Entry::resolve(&resolver, "$dotdir", "zshrc", "$HOME/.zshrc").unwrap();
    assert_eq!(e, entry("/srv/dots/zshrc", "/home/u/.zshrc"));
}

#[test]
fn resolve_reports_undefined_variable_of_source_first() {
    let resolver = PathResolver::new("/home/u".to_string(), '/');
    let error = Entry::resolve(&resolver, "$nowhere", "zshrc", "$neither/.zshrc").unwrap_err();
    assert_eq!(error, LoadError::PathExpansion { variable: "nowhere".to_string() });
}

#[test]
fn resolve_reports_undefined_variable_of_destination() {
    let resolver = PathResolver::new("/home/u".to_string(), '/');
    let error = Entry::resolve(&resolver, "/repo", "zshrc", "$neither/.zshrc").unwrap_err();
    assert_eq!(error, LoadError::PathExpansion { variable: "neither".to_string() });
}

#[test]
fn resolve_writes_the_separator_of_the_resolver() {
    let resolver = PathResolver::new("/home/u".to_string(), '\\');
    let e = Entry::resolve(&resolver, "/repo", "vim/rc", "~/.vim/rc").unwrap();
    assert_eq!(e.src, "\\repo\\vim\\rc");
    assert_eq!(e.dst, "\\home\\u\\.vim\\rc");
}

#[test]
fn node_equality_and_clone() {
    let link = Node::Link("/a".to_string());
    assert_eq!(link.clone(), link);
    assert_ne!(link, Node::Link("/b".to_string()));
    assert_ne!(link, Node::Absent);
    assert_eq!(Node::Occupant, Node::Occupant);
    assert_ne!(Node::Occupant, Node::Absent);
}
