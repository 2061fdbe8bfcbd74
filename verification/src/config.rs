//! The configuration of a run: the repository, the directory that the
//! linkfiles speak of, and the linkfiles themselves.

use vstd::prelude::*;
use crate::document::{
    array_at, elements_view, find, items_view, parse_document, text_at, toml_document, Value,
    ValueView,
};
use crate::error::{LoadError, LoadErrorView};
use crate::linkfile::{collected, loads, parse_linkfile, Linkfile, LinkfileSet, LinkfileView};
use crate::path::{expanded_by, PathResolver, PathResolverView};

verus! {

/// `resolver` with the variable `name` defined as `value`.
pub open spec fn defined(
    resolver: PathResolverView,
    name: Seq<char>,
    value: Seq<char>,
) -> PathResolverView {
    PathResolverView {
        home: resolver.home,
        variables: resolver.variables.insert(name, value),
        separator: resolver.separator,
    }
}

/// The strings of an array, if every element is one.
pub open spec fn strings_of(elements: Seq<Option<Seq<char>>>) -> Option<Seq<Seq<char>>> {
    if forall|i: int| 0 <= i < elements.len() ==> (#[trigger] elements[i]) is Some {
        Some(Seq::new(elements.len(), |i: int| elements[i]->0))
    } else {
        None
    }
}

/// The variable that the first of `names` that cannot be expanded refers
/// to, if there is such a name.
pub open spec fn first_undefined(resolver: PathResolverView, names: Seq<Seq<char>>) -> Option<
    Seq<char>,
>
    decreases names.len(),
{
    if names.len() == 0 {
        None
    } else {
        match expanded_by(resolver, names[0]) {
            Err(variable) => Some(variable),
            Ok(_) => first_undefined(resolver, names.drop_first()),
        }
    }
}

/// The expanded paths of `names`, one for each in order, or the error of the
/// first name that refers to an undefined variable.
pub open spec fn expanded_all(resolver: PathResolverView, names: Seq<Seq<char>>) -> Result<
    Seq<Seq<char>>,
    LoadErrorView,
> {
    match first_undefined(resolver, names) {
        Some(variable) => Err(LoadErrorView::PathExpansion { variable }),
        None => Ok(Seq::new(names.len(), |i: int| expanded_by(resolver, names[i])->Ok_0)),
    }
}

/// Mathematical value of a [`Config`].
pub struct ConfigView {
    pub repo: Seq<char>,
    pub dotdir: Seq<char>,
    pub linkfiles: Seq<Seq<char>>,
    pub resolver: PathResolverView,
}

/// The configuration that `items` describe.
///
/// `clone_repository` and `dotdir` have to be strings and `linkfiles` an
/// array of strings; else the configuration is a parse error, whatever
/// stands in the paths. The variable `clone_repository` is defined as the
/// expanded repository, then the variable `dotdir` as the expanded
/// directory, and with both defined the paths of the linkfiles are expanded.
/// The first path that refers to an undefined variable is an expansion
/// error.
pub open spec fn configured(
    resolver: PathResolverView,
    items: Seq<(Seq<char>, ValueView)>,
) -> Result<ConfigView, LoadErrorView> {
    match (
        text_at(items, "clone_repository"@),
        text_at(items, "dotdir"@),
        linkfiles_at(items),
    ) {
        (Some(repo), Some(dotdir), Some(names)) => match expanded_by(resolver, repo) {
            Err(variable) => Err(LoadErrorView::PathExpansion { variable }),
            Ok(repo_path) => {
                let with_repo = defined(resolver, "clone_repository"@, repo_path);
                match expanded_by(with_repo, dotdir) {
                    Err(variable) => Err(LoadErrorView::PathExpansion { variable }),
                    Ok(dotdir_path) => {
                        let with_both = defined(with_repo, "dotdir"@, dotdir_path);
                        match expanded_all(with_both, names) {
                            Err(error) => Err(error),
                            Ok(linkfiles) => Ok(
                                ConfigView { repo, dotdir, linkfiles, resolver: with_both },
                            ),
                        }
                    },
                }
            },
        },
        _ => Err(LoadErrorView::ConfigParse),
    }
}

/// The paths of the linkfiles as the configuration names them, if
/// `linkfiles` is an array of strings.
pub open spec fn linkfiles_at(items: Seq<(Seq<char>, ValueView)>) -> Option<Seq<Seq<char>>> {
    match array_at(items, "linkfiles"@) {
        Some(elements) => strings_of(elements),
        None => None,
    }
}

/// Whether `file` is what reading the linkfile at position `j` gave: it has
/// the path of that linkfile for a name and holds the entries that its text
/// declares.
pub open spec fn is_loaded(
    config: ConfigView,
    contents: Seq<Seq<char>>,
    j: int,
    file: LinkfileView,
) -> bool {
    &&& file.name == config.linkfiles[j]
    &&& loads(config.resolver, config.dotdir, contents[j], Ok(file.entries))
}

/// Whether `files` are what reading the first linkfiles of the
/// configuration gave, one for each in order.
pub open spec fn are_loaded(
    config: ConfigView,
    contents: Seq<Seq<char>>,
    files: Seq<LinkfileView>,
) -> bool {
    &&& files.len() <= contents.len()
    &&& files.len() <= config.linkfiles.len()
    &&& forall|j: int| 0 <= j < files.len() ==> is_loaded(config, contents, j, #[trigger] files[j])
}

/// The mathematical value of a vector of strings.
pub open spec fn texts_view(texts: Seq<String>) -> Seq<Seq<char>> {
    Seq::new(texts.len(), |i: int| texts[i]@)
}

/// What a run is configured with.
#[derive(Debug)]
pub struct Config {
    /// The repository, as the configuration names it.
    pub repo: String,
    /// The directory that holds the files to link, as the configuration
    /// names it.
    pub dotdir: String,
    linkfiles: Vec<String>,
    resolver: PathResolver,
}

impl View for Config {
    type V = ConfigView;

    closed spec fn view(&self) -> ConfigView {
        ConfigView {
            repo: self.repo@,
            dotdir: self.dotdir@,
            linkfiles: texts_view(self.linkfiles@),
            resolver: self.resolver@,
        }
    }
}

/// The mathematical value of the outcome of a configuration.
pub open spec fn config_outcome_view(outcome: Result<Config, LoadError>) -> Result<
    ConfigView,
    LoadErrorView,
> {
    match outcome {
        Ok(config) => Ok(config@),
        Err(error) => Err(error@),
    }
}

/// The strings of an array, if every element is one.
pub fn strings(elements: &Vec<Option<String>>) -> (texts: Option<Vec<String>>)
    ensures
        match texts {
            Some(names) => strings_of(elements_view(elements@)) == Some(texts_view(names@)),
            None => strings_of(elements_view(elements@)).is_none(),
        },
{
    let ghost all = elements_view(elements@);
    let mut names: Vec<String> = Vec::new();
    let mut i: usize = 0;
    while i < elements.len()
        invariant
            i <= elements.len(),
            all == elements_view(elements@),
            names.len() == i,
            forall|k: int| 0 <= k < i ==> (#[trigger] all[k]) == Some(names[k]@),
        decreases elements.len() - i,
    {
        match &elements[i] {
            Some(text) => {
                names.push(text.clone());
            },
            None => {
                proof {
                    assert(all[i as int] is None);
                }
                return None;
            },
        }
        i = i + 1;
    }
    proof {
        assert(texts_view(names@) =~= Seq::new(all.len(), |i: int| all[i]->0));
    }
    Some(names)
}

/// The expanded paths of `names`, or the error of the first that refers to
/// an undefined variable.
pub fn expand_all(resolver: &PathResolver, names: &Vec<String>) -> (outcome: Result<
    Vec<String>,
    LoadError,
>)
    ensures
        match expanded_all(resolver@, texts_view(names@)) {
            Ok(paths) => outcome is Ok && texts_view(outcome->Ok_0@) == paths,
            Err(error) => outcome is Err && outcome->Err_0@ == error,
        },
{
    let ghost all = texts_view(names@);
    let mut paths: Vec<String> = Vec::new();
    let mut i: usize = 0;
    proof {
        assert(all.skip(0) =~= all);
    }
    while i < names.len()
        invariant
            i <= names.len(),
            all == texts_view(names@),
            paths.len() == i,
            first_undefined(resolver@, all) == first_undefined(resolver@, all.skip(i as int)),
            forall|k: int|
                0 <= k < i ==> expanded_by(resolver@, #[trigger] all[k]) == Ok::<
                    Seq<char>,
                    Seq<char>,
                >(paths[k]@),
        decreases names.len() - i,
    {
        proof {
            assert(all.skip(i as int)[0] == all[i as int]);
            assert(all.skip(i as int).drop_first() =~= all.skip(i + 1));
        }
        match resolver.expand_full(names[i].as_str()) {
            Ok(path) => {
                paths.push(path);
            },
            Err(error) => {
                return Err(error);
            },
        }
        i = i + 1;
    }
    proof {
        assert(texts_view(paths@) =~= Seq::new(
            all.len(),
            |i: int| expanded_by(resolver@, all[i])->Ok_0,
        ));
    }
    Ok(paths)
}

impl Config {
    /// The configuration that the text `content` describes. `resolver` holds
    /// the home directory and the variables of the environment; the
    /// configuration keeps it, with its own two variables added.
    ///
    /// Fails with `ConfigParse` where `content` is no document, lacks one of
    /// its three keys or holds another kind of value for it, and else with
    /// `PathExpansion` where a path refers to an undefined variable.
    pub fn new(content: &str, resolver: PathResolver) -> (outcome: Result<Config, LoadError>)
        ensures
            match toml_document(content@) {
                None => outcome is Err && outcome->Err_0 is ConfigParse,
                Some(items) => config_outcome_view(outcome) == configured(resolver@, items),
            },
    {
        match parse_document(content) {
            Ok(items) => Config::from_document(&items, resolver),
            Err(error) => Err(error),
        }
    }

    /// The configuration that the items of a document describe.
    pub fn from_document(items: &Vec<(String, Value)>, resolver: PathResolver) -> (outcome: Result<
        Config,
        LoadError,
    >)
        ensures
            config_outcome_view(outcome) == configured(resolver@, items_view(items@)),
    {
        let mut resolver = resolver;
        let repo = match find(items, "clone_repository") {
            Some(Value::Text(text)) => text.clone(),
            _ => {
                return Err(LoadError::ConfigParse);
            },
        };
        let dotdir = match find(items, "dotdir") {
            Some(Value::Text(text)) => text.clone(),
            _ => {
                return Err(LoadError::ConfigParse);
            },
        };
        let names = match find(items, "linkfiles") {
            Some(Value::Array(elements)) => match strings(elements) {
                Some(names) => names,
                None => {
                    return Err(LoadError::ConfigParse);
                },
            },
            _ => {
                return Err(LoadError::ConfigParse);
            },
        };
        let repo_path = match resolver.expand_full(repo.as_str()) {
            Ok(path) => path,
            Err(error) => {
                return Err(error);
            },
        };
        resolver.define("clone_repository".to_owned(), repo_path);
        let dotdir_path = match resolver.expand_full(dotdir.as_str()) {
            Ok(path) => path,
            Err(error) => {
                return Err(error);
            },
        };
        resolver.define("dotdir".to_owned(), dotdir_path);
        let linkfiles = match expand_all(&resolver, &names) {
            Ok(paths) => paths,
            Err(error) => {
                return Err(error);
            },
        };
        Ok(Config { repo, dotdir, linkfiles, resolver })
    }

    /// The set of the linkfiles of the configuration. `contents` holds the
    /// text of each linkfile, in the order of [`Config::linkfiles`]. Where
    /// two linkfiles have the same path, the later one stands in the set.
    ///
    /// Fails with the error of the first linkfile that cannot be read, and
    /// with `ConfigParse` where the number of texts is not that of the
    /// linkfiles. No set is returned unless every linkfile could be read.
    pub fn read_linkfiles(&self, contents: &Vec<String>) -> (outcome: Result<
        LinkfileSet,
        LoadError,
    >)
        ensures
            contents.len() != self@.linkfiles.len() ==> outcome is Err && outcome->Err_0
                is ConfigParse,
            contents.len() == self@.linkfiles.len() ==> match outcome {
                Ok(set) => set.well_formed() && exists|files: Seq<LinkfileView>|
                    files.len() == contents.len() && #[trigger] are_loaded(
                        self@,
                        texts_view(contents@),
                        files,
                    ) && set@ == collected(files),
                Err(error) => exists|files: Seq<LinkfileView>|
                    files.len() < contents.len() && #[trigger] are_loaded(
                        self@,
                        texts_view(contents@),
                        files,
                    ) && loads(
                        self@.resolver,
                        self@.dotdir,
                        contents[files.len() as int]@,
                        Err(error@),
                    ),
            },
    {
        if contents.len() != self.linkfiles.len() {
            return Err(LoadError::ConfigParse);
        }
        let ghost texts = texts_view(contents@);
        let ghost files: Seq<LinkfileView> = Seq::empty();
        let mut set = LinkfileSet::new();
        let mut i: usize = 0;
        while i < contents.len()
            invariant
                i <= contents.len(),
                contents.len() == self.linkfiles.len(),
                texts == texts_view(contents@),
                files.len() == i,
                are_loaded(self@, texts, files),
                set@ == collected(files),
                set.well_formed(),
            decreases contents.len() - i,
        {
            let entries = match parse_linkfile(
                contents[i].as_str(),
                self.dotdir.as_str(),
                &self.resolver,
            ) {
                Ok(entries) => entries,
                Err(error) => {
                    proof {
                        assert(are_loaded(self@, texts_view(contents@), files));
                    }
                    return Err(error);
                },
            };
            let file = Linkfile { name: self.linkfiles[i].clone(), entries };
            proof {
                let longer = files.push(file@);
                assert(longer.drop_last() =~= files);
                assert forall|j: int| 0 <= j < longer.len() implies is_loaded(
                    self@,
                    texts,
                    j,
                    #[trigger] longer[j],
                ) by {
                    if j < files.len() {
                        assert(longer[j] == files[j]);
                    }
                }
                files = longer;
            }
            set.insert(file);
            i = i + 1;
        }
        proof {
            assert(are_loaded(self@, texts_view(contents@), files));
        }
        Ok(set)
    }

    /// The repository, as the configuration names it.
    pub fn repo(&self) -> (repo: &str)
        ensures
            repo@ == self@.repo,
    {
        self.repo.as_str()
    }

    /// The directory that holds the files to link, as the configuration
    /// names it.
    pub fn dotdir(&self) -> (dotdir: &str)
        ensures
            dotdir@ == self@.dotdir,
    {
        self.dotdir.as_str()
    }

    /// The expanded paths of the linkfiles, in the order of the
    /// configuration.
    pub fn linkfiles(&self) -> (linkfiles: &Vec<String>)
        ensures
            texts_view(linkfiles@) == self@.linkfiles,
    {
        &self.linkfiles
    }

    /// The resolver that the paths of the linkfiles are resolved with.
    pub fn resolver(&self) -> (resolver: &PathResolver)
        ensures
            resolver@ == self@.resolver,
    {
        &self.resolver
    }
}

/// The home directory that paths are resolved with: the value of the home
/// variable where the environment defines it, else the home directory that
/// the platform reports, and `None` where neither is known.
pub fn startup(home_variable: Option<String>, home_directory: Option<String>) -> (home: Option<
    String,
>)
    ensures
        home == if home_variable is Some {
            home_variable
        } else {
            home_directory
        },
{
    match home_variable {
        Some(home) => Some(home),
        None => home_directory,
    }
}

} // verus!
