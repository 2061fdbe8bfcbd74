//! Path resolution: home and variable references are expanded, a relative
//! destination is placed under the home directory, and the separators become
//! those of the platform.

use vstd::prelude::*;
use vstd::string::{StrSliceExecFns, StringExecFns};
use crate::error::{LoadError, LoadErrorView};
use crate::order::characters;

verus! {

/// `String::push` appends one character.
pub assume_specification[ String::push ](text: &mut String, ch: char)
    ensures
        final(text)@ == old(text)@.push(ch),
;

/// The variables that a list of definitions binds: for each name the value
/// that was defined last.
pub open spec fn bindings(definitions: Seq<(String, String)>) -> Map<Seq<char>, Seq<char>>
    decreases definitions.len(),
{
    if definitions.len() == 0 {
        Map::empty()
    } else {
        bindings(definitions.drop_last()).insert(
            definitions.last().0@,
            definitions.last().1@,
        )
    }
}

/// `path` with every `/` replaced by `separator`.
pub open spec fn with_separator(path: Seq<char>, separator: char) -> Seq<char> {
    Seq::new(
        path.len(),
        |i: int|
            if path[i] == '/' {
                separator
            } else {
                path[i]
            },
    )
}

/// Whether `path` is written with `separator`: it holds no `/` unless that
/// is the separator.
pub open spec fn is_normal(path: Seq<char>, separator: char) -> bool {
    forall|i: int| 0 <= i < path.len() ==> (path[i] == '/' ==> separator == '/')
}

/// The joined path `base/name`.
pub open spec fn joined(base: Seq<char>, name: Seq<char>) -> Seq<char> {
    base + seq!['/'] + name
}

/// The outcome of `shellexpand::env_with_context` on an `input` that holds
/// a `$`, with a lookup that knows the variables of `variables` and fails
/// for every other name: the text with its references to variables
/// expanded, or the name of the variable whose lookup failed.
pub uninterp spec fn shell_expansion(
    input: Seq<char>,
    variables: Map<Seq<char>, Seq<char>>,
) -> Result<Seq<char>, Seq<char>>;

/// `input` with its references to variables expanded. A text without a `$`
/// refers to none and stays as it is.
pub open spec fn variable_expansion(
    input: Seq<char>,
    variables: Map<Seq<char>, Seq<char>>,
) -> Result<Seq<char>, Seq<char>> {
    if input.contains('$') {
        shell_expansion(input, variables)
    } else {
        Ok(input)
    }
}

/// Whether `text` begins with the marker of the home directory: a tilde that
/// stands alone, or before a slash or the separator.
pub open spec fn has_home_marker(text: Seq<char>, separator: char) -> bool {
    text.len() > 0 && text[0] == '~' && (text.len() == 1 || text[1] == '/' || text[1]
        == separator)
}

/// `text` with the marker of the home directory replaced by `home`.
pub open spec fn tilde_expansion(text: Seq<char>, home: Seq<char>, separator: char) -> Seq<char> {
    if has_home_marker(text, separator) {
        home + text.skip(1)
    } else {
        text
    }
}

/// What `input` expands to: its references to variables are expanded, and
/// then, if `input` itself begins with a tilde, the marker of the home
/// directory. A tilde that comes out of a variable is left alone.
pub open spec fn expanded_by(resolver: PathResolverView, input: Seq<char>) -> Result<
    Seq<char>,
    Seq<char>,
> {
    match variable_expansion(input, resolver.variables) {
        Ok(text) => Ok(
            if input.len() > 0 && input[0] == '~' {
                tilde_expansion(text, resolver.home, resolver.separator)
            } else {
                text
            },
        ),
        Err(variable) => Err(variable),
    }
}

/// Whether `path` begins with a slash.
pub open spec fn is_rooted(path: Seq<char>) -> bool {
    path.len() > 0 && path[0] == '/'
}

/// Whether `path` is the destination that the expanded text `expanded`
/// stands for. Where paths are written with `/`, a text that does not begin
/// with a slash is relative and lies under the home directory. With another
/// separator the platform says what is relative.
pub open spec fn is_placement(
    resolver: PathResolverView,
    expanded: Seq<char>,
    path: Seq<char>,
) -> bool {
    if resolver.separator == '/' {
        path == placed(expanded, !is_rooted(expanded), resolver.home, resolver.separator)
    } else {
        path == placed(expanded, true, resolver.home, resolver.separator) || path == placed(
            expanded,
            false,
            resolver.home,
            resolver.separator,
        )
    }
}

/// The destination that the expanded text of a declaration stands for: a
/// relative one lies under the home directory.
pub open spec fn placed(
    expanded: Seq<char>,
    relative: bool,
    home: Seq<char>,
    separator: char,
) -> Seq<char> {
    with_separator(
        if relative {
            joined(home, expanded)
        } else {
            expanded
        },
        separator,
    )
}

/// The mathematical value of the outcome of an expansion.
pub open spec fn outcome_view(outcome: Result<String, String>) -> Result<Seq<char>, Seq<char>> {
    match outcome {
        Ok(path) => Ok(path@),
        Err(variable) => Err(variable@),
    }
}

/// Mathematical value of a [`PathResolver`].
pub struct PathResolverView {
    pub home: Seq<char>,
    pub variables: Map<Seq<char>, Seq<char>>,
    pub separator: char,
}

/// What path resolution depends on, as explicit values: the home directory,
/// the variables that a path may refer to, and the separator that resolved
/// paths use.
#[derive(Debug)]
pub struct PathResolver {
    home: String,
    definitions: Vec<(String, String)>,
    separator: char,
}

impl View for PathResolver {
    type V = PathResolverView;

    closed spec fn view(&self) -> PathResolverView {
        PathResolverView {
            home: self.home@,
            variables: bindings(self.definitions@),
            separator: self.separator,
        }
    }
}

/// `std::path::MAIN_SEPARATOR`, the separator of the platform. Nothing is
/// claimed of it: it differs between platforms.
#[verifier::external_body]
fn main_separator() -> (separator: char) {
    std::path::MAIN_SEPARATOR
}

/// `std::path::Path::is_relative`. Nothing is claimed of the answer: the
/// platforms do not agree on what an absolute path is. It is asked only
/// where paths are not written with `/`.
#[verifier::external_body]
fn is_relative(path: &str) -> (relative: bool) {
    std::path::Path::new(path).is_relative()
}

/// `shellexpand::env_with_context`, with the variables of `resolver`. The
/// crate's source shows that the outcome is a function of the input and of
/// what the lookup answers, and that an input without a `$` comes back as it
/// is. An error carries the name of the variable whose lookup failed.
#[verifier::external_body]
fn shellexpand_env(resolver: &PathResolver, input: &str) -> (outcome: Result<String, String>)
    ensures
        input@.contains('$') ==> outcome_view(outcome) == shell_expansion(
            input@,
            resolver@.variables,
        ),
        !input@.contains('$') ==> outcome is Ok && outcome->Ok_0@ == input@,
{
    match shellexpand::env_with_context(input, |name| resolver.context(name)) {
        Ok(text) => Ok(text.into_owned()),
        Err(error) => Err(error.var_name),
    }
}

/// Whether `text` begins with the character `first`.
fn begins_with(text: &str, first: char) -> (begins: bool)
    ensures
        begins == (text@.len() > 0 && text@[0] == first),
{
    !text.is_empty() && text.get_char(0) == first
}

impl PathResolver {
    /// A resolver for the home directory `home` that writes paths with
    /// `separator`. The variable `HOME` is defined as `home`.
    pub fn new(home: String, separator: char) -> (resolver: PathResolver)
        ensures
            resolver@.home == home@,
            resolver@.separator == separator,
            resolver@.variables == Map::<Seq<char>, Seq<char>>::empty().insert("HOME"@, home@),
    {
        let mut definitions: Vec<(String, String)> = Vec::new();
        definitions.push(("HOME".to_owned(), home.clone()));
        proof {
            let none = Seq::<(String, String)>::empty();
            assert(definitions@.drop_last() =~= none);
            assert(bindings(none) == Map::<Seq<char>, Seq<char>>::empty());
        }
        PathResolver { home, definitions, separator }
    }

    /// A resolver for the home directory `home` that writes paths with the
    /// separator of the platform.
    pub fn native(home: String) -> (resolver: PathResolver)
        ensures
            resolver@.home == home@,
            resolver@.variables == Map::<Seq<char>, Seq<char>>::empty().insert("HOME"@, home@),
    {
        PathResolver::new(home, main_separator())
    }

    /// The home directory.
    pub fn home(&self) -> (home: &str)
        ensures
            home@ == self@.home,
    {
        self.home.as_str()
    }

    /// The separator that resolved paths use.
    pub fn separator(&self) -> (separator: char)
        ensures
            separator == self@.separator,
    {
        self.separator
    }

    /// Defines the variable `name` as `value`, in place of an earlier
    /// definition of that name.
    pub fn define(&mut self, name: String, value: String)
        ensures
            final(self)@.home == old(self)@.home,
            final(self)@.separator == old(self)@.separator,
            final(self)@.variables == old(self)@.variables.insert(name@, value@),
    {
        let ghost before = self.definitions@;
        self.definitions.push((name, value));
        proof {
            assert(self.definitions@.drop_last() =~= before);
        }
    }

    /// The value of the variable `name`, if it is defined.
    pub fn lookup(&self, name: &str) -> (value: Option<String>)
        ensures
            match value {
                Some(text) => self@.variables.contains_key(name@) && text@
                    == self@.variables[name@],
                None => !self@.variables.contains_key(name@),
            },
    {
        let key = name.to_owned();
        let mut i: usize = self.definitions.len();
        proof {
            assert(self.definitions@.take(i as int) =~= self.definitions@);
        }
        while i > 0
            invariant
                i <= self.definitions.len(),
                key@ == name@,
                bindings(self.definitions@).contains_key(name@) == bindings(
                    self.definitions@.take(i as int),
                ).contains_key(name@),
                bindings(self.definitions@)[name@] == bindings(
                    self.definitions@.take(i as int),
                )[name@],
            decreases i,
        {
            i = i - 1;
            proof {
                let prefix = self.definitions@.take(i + 1);
                assert(prefix.last() == self.definitions@[i as int]);
                assert(prefix.drop_last() =~= self.definitions@.take(i as int));
            }
            if self.definitions[i].0 == key {
                return Some(self.definitions[i].1.clone());
            }
        }
        None
    }

    /// The answer to a variable lookup in the shape that the expansion asks
    /// for: an undefined variable is an error.
    fn context(&self, name: &str) -> (answer: Result<Option<String>, ()>)
        ensures
            match answer {
                Ok(Some(text)) => self@.variables.contains_key(name@) && text@
                    == self@.variables[name@],
                Ok(None) => false,
                Err(_) => !self@.variables.contains_key(name@),
            },
    {
        match self.lookup(name) {
            Some(text) => Ok(Some(text)),
            None => Err(()),
        }
    }

    /// Replaces the marker of the home directory at the start of `text` by
    /// the home directory.
    pub fn expand_tilde(&self, text: String) -> (expanded: String)
        ensures
            expanded@ == tilde_expansion(text@, self@.home, self@.separator),
    {
        let chars = characters(text.as_str());
        if chars.len() > 0 && chars[0] == '~' && (chars.len() == 1 || chars[1] == '/' || chars[1]
            == self.separator) {
            let mut expanded = self.home.clone();
            let mut i: usize = 1;
            while i < chars.len()
                invariant
                    1 <= i <= chars.len(),
                    chars@ == text@,
                    expanded@ == self@.home + text@.subrange(1, i as int),
                decreases chars.len() - i,
            {
                expanded.push(chars[i]);
                i = i + 1;
            }
            proof {
                assert(text@.subrange(1, i as int) =~= text@.skip(1));
            }
            expanded
        } else {
            text
        }
    }

    /// Expands the home and variable references of `input`.
    ///
    /// Fails where `input` refers to a variable that is not defined and
    /// gives no default for it.
    pub fn expand_full(&self, input: &str) -> (expanded: Result<String, LoadError>)
        ensures
            match expanded_by(self@, input@) {
                Ok(path) => expanded is Ok && expanded->Ok_0@ == path,
                Err(variable) => expanded is Err && expanded->Err_0@ == (
                LoadErrorView::PathExpansion { variable }),
            },
    {
        match shellexpand_env(self, input) {
            Ok(text) => if begins_with(input, '~') {
                Ok(self.expand_tilde(text))
            } else {
                Ok(text)
            },
            Err(variable) => Err(LoadError::PathExpansion { variable }),
        }
    }

    /// The path of the file `key` in the directory `dotdir`, expanded and
    /// written with the separator of the resolver.
    pub fn source(&self, dotdir: &str, key: &str) -> (path: Result<String, LoadError>)
        ensures
            match expanded_by(self@, joined(dotdir@, key@)) {
                Ok(expanded) => path is Ok && path->Ok_0@ == with_separator(
                    expanded,
                    self@.separator,
                ),
                Err(variable) => path is Err && path->Err_0@ == (
                LoadErrorView::PathExpansion { variable }),
            },
            path is Ok ==> is_normal(path->Ok_0@, self@.separator),
    {
        let mut input = dotdir.to_owned();
        input.append("/");
        input.append(key);
        proof {
            reveal_strlit("/");
            assert("/"@ =~= seq!['/']);
            assert(input@ =~= joined(dotdir@, key@));
        }
        match self.expand_full(input.as_str()) {
            Ok(expanded) => Ok(self.normalize(expanded.as_str())),
            Err(error) => Err(error),
        }
    }

    /// The destination that `expanded` stands for: under the home directory
    /// if it is `relative`, and written with the separator of the resolver.
    pub fn place(&self, expanded: &str, relative: bool) -> (path: String)
        ensures
            path@ == placed(expanded@, relative, self@.home, self@.separator),
            is_normal(path@, self@.separator),
    {
        if relative {
            let mut under_home = self.home.clone();
            under_home.append("/");
            under_home.append(expanded);
            proof {
                reveal_strlit("/");
                assert("/"@ =~= seq!['/']);
                assert(under_home@ =~= joined(self@.home, expanded@));
            }
            self.normalize(under_home.as_str())
        } else {
            self.normalize(expanded)
        }
    }

    /// Whether the expanded text `expanded` is a relative path. Where paths
    /// are written with `/`, it is one unless it begins with a slash; with
    /// another separator the platform is asked.
    pub fn takes_for_relative(&self, expanded: &str) -> (relative: bool)
        ensures
            self@.separator == '/' ==> relative == !is_rooted(expanded@),
    {
        if self.separator == '/' {
            !begins_with(expanded, '/')
        } else {
            is_relative(expanded)
        }
    }

    /// The destination that the declared `value` stands for: expanded, then
    /// placed under the home directory if the expanded path is a relative
    /// one, and written with the separator of the resolver.
    pub fn destination(&self, value: &str) -> (path: Result<String, LoadError>)
        ensures
            match expanded_by(self@, value@) {
                Ok(expanded) => path is Ok && is_placement(self@, expanded, path->Ok_0@),
                Err(variable) => path is Err && path->Err_0@ == (
                LoadErrorView::PathExpansion { variable }),
            },
            path is Ok ==> is_normal(path->Ok_0@, self@.separator),
            path is Ok && self@.separator == '/' && is_rooted(self@.home) ==> is_rooted(
                path->Ok_0@,
            ),
    {
        match self.expand_full(value) {
            Ok(expanded) => {
                let relative = self.takes_for_relative(expanded.as_str());
                Ok(self.place(expanded.as_str(), relative))
            },
            Err(error) => Err(error),
        }
    }

    /// Writes `path` with the separator of the resolver.
    pub fn normalize(&self, path: &str) -> (normal: String)
        ensures
            normal@ == with_separator(path@, self@.separator),
            is_normal(normal@, self@.separator),
    {
        replace_slashes(path, self.separator)
    }
}

/// Replaces every `/` of `path` by `separator`.
pub fn replace_slashes(path: &str, separator: char) -> (normal: String)
    ensures
        normal@ == with_separator(path@, separator),
{
    let mut normal = String::new();
    for c in it: path.chars()
        invariant
            it.seq() == path@,
            normal@ == with_separator(path@.take(it.index() as int), separator),
    {
        if c == '/' {
            normal.push(separator);
        } else {
            normal.push(c);
        }
    }
    normal
}

} // verus!
