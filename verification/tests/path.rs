use dotlink::path::replace_slashes;
use dotlink::{LoadError, PathResolver};

#[test]
fn expand_tilde_to_home() {
    let resolver = PathResolver::new("/home/u".to_string(), '/');
    assert_eq!(resolver.expand_full("~/.vimrc").unwrap(), "/home/u/.vimrc");
    assert_eq!(resolver.expand_full("~").unwrap(), "/home/u");
}

#[test]
fn expand_leaves_plain_text() {
    let resolver = PathResolver::new("/home/u".to_string(), '/');
    assert_eq!(resolver.expand_full("/etc/hosts").unwrap(), "/etc/hosts");
    assert_eq!(resolver.expand_full("").unwrap(), "");
    assert_eq!(resolver.expand_full("a~b").unwrap(), "a~b");
}

#[test]
fn expand_home_variable() {
    let resolver = PathResolver::new("/home/u".to_string(), '/');
    assert_eq!(resolver.expand_full("$HOME/x").unwrap(), "/home/u/x");
    assert_eq!(resolver.expand_full("${HOME}x").unwrap(), "/home/ux");
}

#[test]
fn expand_defined_variable() {
    let mut resolver = PathResolver::new("/home/u".to_string(), '/');
    resolver.define("dotdir".to_string(), "/repo/dots".to_string());
    assert_eq!(resolver.expand_full("$dotdir/vimrc").unwrap(), "/repo/dots/vimrc");
}

#[test]
fn expand_undefined_variable_fails() {
    let resolver = PathResolver::new("/home/u".to_string(), '/');
    assert_eq!(
        resolver.expand_full("$missing/x"),
        Err(LoadError::PathExpansion { variable: "missing".to_string() })
    );
}

#[test]
fn expand_undefined_variable_with_default() {
    let resolver = PathResolver::new("/home/u".to_string(), '/');
    assert_eq!(resolver.expand_full("${missing:-/tmp}/x").unwrap(), "/tmp/x");
}

#[test]
fn later_definition_replaces_earlier() {
    let mut resolver = PathResolver::new("/home/u".to_string(), '/');
    resolver.define("a".to_string(), "one".to_string());
    resolver.define("b".to_string(), "other".to_string());
    resolver.define("a".to_string(), "two".to_string());
    assert_eq!(resolver.lookup("a"), Some("two".to_string()));
    assert_eq!(resolver.lookup("b"), Some("other".to_string()));
    assert_eq!(resolver.lookup("c"), None);
    assert_eq!(resolver.expand_full("$a-$b").unwrap(), "two-other");
}

#[test]
fn new_resolver_defines_home() {
    let resolver = PathResolver::new("/home/u".to_string(), '/');
    assert_eq!(resolver.lookup("HOME"), Some("/home/u".to_string()));
    assert_eq!(resolver.home(), "/home/u");
    assert_eq!(resolver.separator(), '/');
}

#[test]
fn native_resolver_uses_platform_separator() {
    let resolver = PathResolver::native("/home/u".to_string());
    assert_eq!(resolver.separator(), std::path::MAIN_SEPARATOR);
    assert_eq!(resolver.home(), "/home/u");
    assert_eq!(resolver.lookup("HOME"), Some("/home/u".to_string()));
}

#[test]
fn replace_slashes_by_separator() {
    assert_eq!(replace_slashes("a/b/c", '\\'), "a\\b\\c");
    assert_eq!(replace_slashes("a/b/c", '/'), "a/b/c");
    assert_eq!(replace_slashes("", '\\'), "");
    assert_eq!(replace_slashes("/", ':'), ":");
    assert_eq!(replace_slashes("no separator", '\\'), "no separator");
    assert_eq!(replace_slashes("h\u{e9}/\u{4e16}", '\\'), "h\u{e9}\\\u{4e16}");
}

#[test]
fn normalize_uses_separator_of_resolver() {
    let resolver = PathResolver::new("/home/u".to_string(), '\\');
    assert_eq!(resolver.normalize("/home/u/.vimrc"), "\\home\\u\\.vimrc");
}

#[test]
fn source_joins_directory_and_key() {
    let resolver = PathResolver::new("/home/u".to_string(), '/');
    assert_eq!(resolver.source("/repo", "vimrc").unwrap(), "/repo/vimrc");
    assert_eq!(resolver.source("~/dots", "vimrc").unwrap(), "/home/u/dots/vimrc");
    assert_eq!(
        resolver.source("$nope", "vimrc"),
        Err(LoadError::PathExpansion { variable: "nope".to_string() })
    );
}

#[test]
fn place_relative_under_home() {
    let resolver = PathResolver::new("/home/u".to_string(), '/');
    assert_eq!(resolver.place(".vimrc", true), "/home/u/.vimrc");
    assert_eq!(resolver.place("/etc/vimrc", false), "/etc/vimrc");
    let other = PathResolver::new("/home/u".to_string(), '\\');
    assert_eq!(other.place("a/b", true), "\\home\\u\\a\\b");
}

#[test]
fn destination_of_absolute_and_relative_values() {
    let resolver = PathResolver::new("/home/u".to_string(), '/');
    assert_eq!(resolver.destination("/etc/motd").unwrap(), "/etc/motd");
    assert_eq!(resolver.destination("~/.vimrc").unwrap(), "/home/u/.vimrc");
    assert_eq!(resolver.destination(".config/nvim").unwrap(), "/home/u/.config/nvim");
    assert_eq!(
        resolver.destination("$nope/x"),
        Err(LoadError::PathExpansion { variable: "nope".to_string() })
    );
}

#[test]
fn expand_tilde_before_the_separator() {
    let windows = PathResolver::new("C:\\Users\\u".to_string(), '\\');
    assert_eq!(windows.expand_full("~\\dotfiles").unwrap(), "C:\\Users\\u\\dotfiles");
    assert_eq!(windows.expand_full("~/dotfiles").unwrap(), "C:\\Users\\u/dotfiles");
    let unix = PathResolver::new("/home/u".to_string(), '/');
    assert_eq!(unix.expand_full("~\\dotfiles").unwrap(), "~\\dotfiles");
    assert_eq!(unix.expand_full("~other/x").unwrap(), "~other/x");
}

#[test]
fn expand_tilde_after_variables() {
    let mut resolver = PathResolver::new("/home/u".to_string(), '/');
    resolver.define("sub".to_string(), "dots".to_string());
    resolver.define("tilde".to_string(), "~".to_string());
    resolver.define("empty".to_string(), "".to_string());
    assert_eq!(resolver.expand_full("~/$sub").unwrap(), "/home/u/dots");
    assert_eq!(resolver.expand_full("$tilde/x").unwrap(), "~/x");
    assert_eq!(resolver.expand_full("~$empty/x").unwrap(), "/home/u/x");
    assert_eq!(resolver.expand_full("~$sub/x").unwrap(), "~dots/x");
}

#[test]
fn expand_tilde_of_given_text() {
    let resolver = PathResolver::new("/home/u".to_string(), '/');
    assert_eq!(resolver.expand_tilde("~".to_string()), "/home/u");
    assert_eq!(resolver.expand_tilde("~/a/b".to_string()), "/home/u/a/b");
    assert_eq!(resolver.expand_tilde("~a".to_string()), "~a");
    assert_eq!(resolver.expand_tilde("a/~".to_string()), "a/~");
    assert_eq!(resolver.expand_tilde("".to_string()), "");
}

#[test]
fn relative_unless_it_begins_with_a_slash() {
    let resolver = PathResolver::new("/home/u".to_string(), '/');
    assert!(resolver.takes_for_relative(".vimrc"));
    assert!(resolver.takes_for_relative(""));
    assert!(resolver.takes_for_relative("a/b"));
    assert!(resolver.takes_for_relative("C:\\x"));
    assert!(!resolver.takes_for_relative("/etc/motd"));
    assert!(!resolver.takes_for_relative("/"));
}

#[test]
fn relative_as_the_platform_says_with_another_separator() {
    let resolver = PathResolver::new("/home/u".to_string(), '\\');
    for path in ["", "a", "/a", "C:\\a"].iter() {
        assert_eq!(resolver.takes_for_relative(path), std::path::Path::new(path).is_relative());
    }
}
