use dotlink::{startup, Config, Entry, LoadError, PathResolver};

fn entry(src: &str, dst: &str) -> Entry {
    Entry { src: src.to_string(), dst: dst.to_string() }
}

fn resolver() -> PathResolver {
    PathResolver::new("/home/u".to_string(), '/')
}

const CONTENT: &str = "clone_repository = \"~/dotfiles\"\n\
                       dotdir = \"$clone_repository/files\"\n\
                       linkfiles = [\"$dotdir/links.toml\", \"~/extra.toml\"]\n";

#[test]
fn config_keeps_names_and_expands_linkfiles() {
    let config = Config::new(CONTENT, resolver()).unwrap();
    assert_eq!(config.repo, "~/dotfiles");
    assert_eq!(config.dotdir, "$clone_repository/files");
    assert_eq!(config.repo(), "~/dotfiles");
    assert_eq!(config.dotdir(), "$clone_repository/files");
    assert_eq!(
        config.linkfiles(),
        &vec!["/home/u/dotfiles/files/links.toml".to_string(), "/home/u/extra.toml".to_string()]
    );
}

#[test]
fn config_defines_its_two_variables() {
    let config = Config::new(CONTENT, resolver()).unwrap();
    assert_eq!(config.resolver().lookup("clone_repository"), Some("/home/u/dotfiles".to_string()));
    assert_eq!(config.resolver().lookup("dotdir"), Some("/home/u/dotfiles/files".to_string()));
    assert_eq!(config.resolver().lookup("HOME"), Some("/home/u".to_string()));
    assert_eq!(config.resolver().home(), "/home/u");
}

#[test]
fn config_without_linkfiles_is_empty() {
    let content = "clone_repository = \"/r\"\ndotdir = \"/r/d\"\nlinkfiles = []\n";
    let config = Config::new(content, resolver()).unwrap();
    assert_eq!(config.linkfiles().len(), 0);
    let set = config.read_linkfiles(&vec![]).unwrap();
    assert_eq!(set.len(), 0);
}

#[test]
fn config_that_is_no_document_is_a_parse_error() {
    assert_eq!(Config::new("clone_repository = ", resolver()).unwrap_err(), LoadError::ConfigParse);
}

#[test]
fn config_missing_a_key_is_a_parse_error() {
    let no_repo = "dotdir = \"/r/d\"\nlinkfiles = []\n";
    let no_dotdir = "clone_repository = \"/r\"\nlinkfiles = []\n";
    let no_linkfiles = "clone_repository = \"/r\"\ndotdir = \"/r/d\"\n";
    assert_eq!(Config::new(no_repo, resolver()).unwrap_err(), LoadError::ConfigParse);
    assert_eq!(Config::new(no_dotdir, resolver()).unwrap_err(), LoadError::ConfigParse);
    assert_eq!(Config::new(no_linkfiles, resolver()).unwrap_err(), LoadError::ConfigParse);
}

#[test]
fn config_with_wrong_kind_of_value_is_a_parse_error() {
    let repo_number = "clone_repository = 1\ndotdir = \"/r/d\"\nlinkfiles = []\n";
    let linkfiles_text = "clone_repository = \"/r\"\ndotdir = \"/r/d\"\nlinkfiles = \"x\"\n";
    let element_number = "clone_repository = \"/r\"\ndotdir = \"/r/d\"\nlinkfiles = [\"a\", 2]\n";
    assert_eq!(Config::new(repo_number, resolver()).unwrap_err(), LoadError::ConfigParse);
    assert_eq!(Config::new(linkfiles_text, resolver()).unwrap_err(), LoadError::ConfigParse);
    assert_eq!(Config::new(element_number, resolver()).unwrap_err(), LoadError::ConfigParse);
}

#[test]
fn config_with_undefined_variable_is_an_expansion_error() {
    let in_repo = "clone_repository = \"$nope\"\ndotdir = \"/r/d\"\nlinkfiles = []\n";
    let in_dotdir = "clone_repository = \"/r\"\ndotdir = \"$nope/d\"\nlinkfiles = []\n";
    let in_linkfile = "clone_repository = \"/r\"\ndotdir = \"/r/d\"\nlinkfiles = [\"$nope\"]\n";
    let expected = LoadError::PathExpansion { variable: "nope".to_string() };
    assert_eq!(Config::new(in_repo, resolver()).unwrap_err(), expected);
    assert_eq!(Config::new(in_dotdir, resolver()).unwrap_err(), expected);
    assert_eq!(Config::new(in_linkfile, resolver()).unwrap_err(), expected);
}

#[test]
fn config_structure_is_judged_before_its_paths() {
    let content = "clone_repository = \"$nope\"\ndotdir = \"/r/d\"\n";
    assert_eq!(Config::new(content, resolver()).unwrap_err(), LoadError::ConfigParse);
    let content = "clone_repository = \"$nope\"\ndotdir = \"/r/d\"\nlinkfiles = [1]\n";
    assert_eq!(Config::new(content, resolver()).unwrap_err(), LoadError::ConfigParse);
}

#[test]
fn config_with_native_separators() {
    let windows = PathResolver::new("C:\\Users\\u".to_string(), '\\');
    let content = "clone_repository = '~\\dotfiles'\ndotdir = '~\\dotfiles\\files'\n\
                   linkfiles = ['~\\links.toml']\n";
    let config = Config::new(content, windows).unwrap();
    assert_eq!(config.repo(), "~\\dotfiles");
    assert_eq!(config.dotdir(), "~\\dotfiles\\files");
    assert_eq!(config.linkfiles(), &vec!["C:\\Users\\u\\links.toml".to_string()]);
    assert_eq!(
        config.resolver().lookup("clone_repository"),
        Some("C:\\Users\\u\\dotfiles".to_string())
    );
}

#[test]
fn repository_cannot_refer_to_dotdir() {
    let content = "clone_repository = \"$dotdir/r\"\ndotdir = \"/d\"\nlinkfiles = []\n";
    assert_eq!(
        Config::new(content, resolver()).unwrap_err(),
        LoadError::PathExpansion { variable: "dotdir".to_string() }
    );
}

#[test]
fn read_linkfiles_builds_the_set() {
    let config = Config::new(CONTENT, resolver()).unwrap();
    let contents = vec![
        "vimrc = \"~/.vimrc\"\nzshrc = \".zshrc\"\n".to_string(),
        "gitconfig = \"$HOME/.gitconfig\"\n".to_string(),
    ];
    let set = config.read_linkfiles(&contents).unwrap();
    assert_eq!(set.len(), 2);
    assert_eq!(set.file(0).name, "/home/u/dotfiles/files/links.toml");
    assert_eq!(
        set.file(0).entries,
        vec![
            entry("/home/u/dotfiles/files/vimrc", "/home/u/.vimrc"),
            entry("/home/u/dotfiles/files/zshrc", "/home/u/.zshrc"),
        ]
    );
    assert_eq!(set.file(1).name, "/home/u/extra.toml");
    assert_eq!(
        set.file(1).entries,
        vec![entry("/home/u/dotfiles/files/gitconfig", "/home/u/.gitconfig")]
    );
}

#[test]
fn read_linkfiles_orders_by_name() {
    let content = "clone_repository = \"/r\"\ndotdir = \"/r/d\"\n\
                   linkfiles = [\"/z.toml\", \"/a.toml\", \"/m.toml\"]\n";
    let config = Config::new(content, resolver()).unwrap();
    let contents =
        vec!["z = \"/1\"\n".to_string(), "a = \"/2\"\n".to_string(), "m = \"/3\"\n".to_string()];
    let set = config.read_linkfiles(&contents).unwrap();
    assert_eq!(set.len(), 3);
    assert_eq!(set.file(0).name, "/a.toml");
    assert_eq!(set.file(0).entries, vec![entry("/r/d/a", "/2")]);
    assert_eq!(set.file(1).name, "/m.toml");
    assert_eq!(set.file(2).name, "/z.toml");
    assert_eq!(set.file(2).entries, vec![entry("/r/d/z", "/1")]);
}

#[test]
fn read_linkfiles_keeps_the_later_of_two_with_one_path() {
    let content = "clone_repository = \"/r\"\ndotdir = \"/r/d\"\n\
                   linkfiles = [\"/a.toml\", \"/a.toml\"]\n";
    let config = Config::new(content, resolver()).unwrap();
    let contents = vec!["x = \"/1\"\n".to_string(), "y = \"/2\"\n".to_string()];
    let set = config.read_linkfiles(&contents).unwrap();
    assert_eq!(set.len(), 1);
    assert_eq!(set.file(0).entries, vec![entry("/r/d/y", "/2")]);
}

#[test]
fn read_linkfiles_fails_as_a_whole() {
    let config = Config::new(CONTENT, resolver()).unwrap();
    let malformed = vec!["vimrc = \"~/.vimrc\"\n".to_string(), "gitconfig = \n".to_string()];
    assert_eq!(config.read_linkfiles(&malformed).unwrap_err(), LoadError::ConfigParse);
    let undefined = vec!["vimrc = \"$nope\"\n".to_string(), "gitconfig = \n".to_string()];
    assert_eq!(
        config.read_linkfiles(&undefined).unwrap_err(),
        LoadError::PathExpansion { variable: "nope".to_string() }
    );
}

#[test]
fn read_linkfiles_needs_one_text_for_each_linkfile() {
    let config = Config::new(CONTENT, resolver()).unwrap();
    assert_eq!(config.read_linkfiles(&vec![]).unwrap_err(), LoadError::ConfigParse);
    let three = vec!["".to_string(), "".to_string(), "".to_string()];
    assert_eq!(config.read_linkfiles(&three).unwrap_err(), LoadError::ConfigParse);
}

#[test]
fn startup_prefers_the_home_variable() {
    assert_eq!(
        startup(Some("/home/u".to_string()), Some("/users/u".to_string())),
        Some("/home/u".to_string())
    );
    assert_eq!(startup(None, Some("/users/u".to_string())), Some("/users/u".to_string()));
    assert_eq!(startup(Some("/home/u".to_string()), None), Some("/home/u".to_string()));
    assert_eq!(startup(None, None), None);
}
