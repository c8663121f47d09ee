//! The settings record of an `.npmrc` file and the registry lookup on it.

use vstd::prelude::*;
use vstd::string::*;
use crate::text::has_prefix;

verus! {

/// Npm's access levels.
#[derive(Debug, Clone, Copy, PartialEq, Eq, Structural)]
pub enum Access {
    /// Access is public.
    Public,
    /// Access is not public.
    Restricted,
}

/// Npm's log levels.
#[derive(Debug, Clone, Copy, PartialEq, Eq, Structural)]
pub enum LogLevel {
    /// No messages.
    Silent,
    /// Log out error messages.
    Error,
    /// Log out warnings.
    Warn,
    /// Log out notices.
    Notice,
    /// Log out HTTP requests.
    Http,
    /// Log out timing information.
    Timing,
    /// Log out a balanced amount of information.
    Info,
    /// Log out most things.
    Verbose,
    /// Log out everything.
    Silly,
}

/// One `@scope:registry` mapping.
#[derive(Debug, Clone, PartialEq, Eq)]
pub struct Scope {
    /// The scope's name, without the leading `@`.
    pub name: String,
    /// The base URL of the registry that serves the scope's packages.
    pub registry_url: String,
}

/// What a [`Scope`] is in contracts.
pub struct ScopeView {
    pub name: Seq<char>,
    pub registry_url: Seq<char>,
}

impl View for Scope {
    type V = ScopeView;

    open spec fn view(&self) -> ScopeView {
        ScopeView { name: self.name@, registry_url: self.registry_url@ }
    }
}

/// Representation of `.npmrc`.
#[derive(Debug, Clone, PartialEq, Eq)]
pub struct Npmrc {
    /// The access level for published scoped packages.
    pub access: String,
    /// Npm's log level.
    pub loglevel: String,
    /// Should npm echo out progress while installing packages?
    pub progress: bool,
    /// Should npm create a package-lock.json file?
    pub package_lock: bool,
    /// The base URL of the npm registry.
    pub registry: String,
    /// Should npm modify package.json when installing?
    pub save: bool,
    /// The scopes that name a registry of their own, in the order of `other`.
    pub scopes: Vec<Scope>,
    /// The value `npm init` uses by default for the package author's name.
    pub init_author_name: String,
    /// The value `npm init` uses by default for the package author's email.
    pub init_author_email: String,
    /// Every other key of the file with its value, in the order in which the
    /// keys first appeared.
    pub other: Vec<(String, String)>,
}

/// What an [`Npmrc`] is in contracts.
pub struct NpmrcView {
    pub access: Seq<char>,
    pub loglevel: Seq<char>,
    pub progress: bool,
    pub package_lock: bool,
    pub registry: Seq<char>,
    pub save: bool,
    pub scopes: Seq<ScopeView>,
    pub init_author_name: Seq<char>,
    pub init_author_email: Seq<char>,
    pub other: Seq<(Seq<char>, Seq<char>)>,
}

/// The views of a run of scopes, in order.
pub open spec fn scopes_view(scopes: Seq<Scope>) -> Seq<ScopeView> {
    scopes.map_values(|scope: Scope| scope@)
}

/// The views of a run of key and value pairs, in order.
pub open spec fn pairs_view(pairs: Seq<(String, String)>) -> Seq<(Seq<char>, Seq<char>)> {
    pairs.map_values(|pair: (String, String)| (pair.0@, pair.1@))
}

impl View for Npmrc {
    type V = NpmrcView;

    open spec fn view(&self) -> NpmrcView {
        NpmrcView {
            access: self.access@,
            loglevel: self.loglevel@,
            progress: self.progress,
            package_lock: self.package_lock,
            registry: self.registry@,
            save: self.save,
            scopes: scopes_view(self.scopes@),
            init_author_name: self.init_author_name@,
            init_author_email: self.init_author_email@,
            other: pairs_view(self.other@),
        }
    }
}

/// The text that a package of the scope `name` begins with: `@name/`.
pub open spec fn scope_prefix(name: Seq<char>) -> Seq<char> {
    seq!['@'] + name + seq!['/']
}

/// Whether `package` belongs to `scope`.
pub open spec fn serves(scope: ScopeView, package: Seq<char>) -> bool {
    scope_prefix(scope.name).is_prefix_of(package)
}

/// Whether `scopes[i]` is the first scope that `package` belongs to.
pub open spec fn first_serving(scopes: Seq<ScopeView>, package: Seq<char>, i: int) -> bool {
    &&& 0 <= i < scopes.len()
    &&& serves(scopes[i], package)
    &&& forall|j: int| 0 <= j < i ==> !serves(#[trigger] scopes[j], package)
}

impl NpmrcView {
    /// The registry for `package`: that of the first scope it belongs to, else
    /// the general registry unless that is empty.
    pub open spec fn registry_for(self, package: Seq<char>) -> Option<Seq<char>> {
        if exists|i: int| first_serving(self.scopes, package, i) {
            Some(self.scopes[choose|i: int| first_serving(self.scopes, package, i)].registry_url)
        } else if self.registry.len() == 0 {
            None
        } else {
            Some(self.registry)
        }
    }
}

impl Npmrc {
    /// The URL of the registry that serves `package`, if one is configured.
    pub fn get_registry_for_package(&self, package: &str) -> (r: Option<&str>)
        ensures
            match r {
                Some(url) => self@.registry_for(package@) == Some(url@),
                None => self@.registry_for(package@) is None,
            },
    {
        let mut i: usize = 0;
        while i < self.scopes.len()
            invariant
                i <= self.scopes.len(),
                forall|j: int| 0 <= j < i ==> !serves(#[trigger] self@.scopes[j], package@),
            decreases self.scopes.len() - i,
        {
            let scope = &self.scopes[i];
            let prefix = String::from_str("@").concat(scope.name.as_str()).concat("/");
            proof {
                reveal_strlit("@");
                reveal_strlit("/");
                assert(prefix@ =~= scope_prefix(scope.name@));
                assert(self@.scopes[i as int] == scope@);
            }
            if has_prefix(package, prefix.as_str()) {
                proof {
                    assert(first_serving(self@.scopes, package@, i as int));
                    let c = choose|k: int| first_serving(self@.scopes, package@, k);
                    assert(c == i);
                }
                return Some(scope.registry_url.as_str());
            }
            i += 1;
        }
        if self.registry.as_str().is_empty() {
            None
        } else {
            Some(self.registry.as_str())
        }
    }
}

/// A package of a scope gets that scope's registry, whatever the general
/// registry is: where `scopes[i]` is the first scope that the package belongs
/// to, the lookup gives its URL.
pub proof fn scoped_package_uses_scope(config: NpmrcView, package: Seq<char>, i: int)
    requires
        first_serving(config.scopes, package, i),
    ensures
        config.registry_for(package) == Some(config.scopes[i].registry_url),
{
    let c = choose|k: int| first_serving(config.scopes, package, k);
    assert(c == i);
}

/// A package named `@name/rest` belongs to every scope called `name`.
pub proof fn scope_serves_its_packages(scope: ScopeView, rest: Seq<char>)
    ensures
        serves(scope, scope_prefix(scope.name) + rest),
{
    let prefix = scope_prefix(scope.name);
    assert((prefix + rest).subrange(0, prefix.len() as int) =~= prefix);
}

/// A package whose name does not begin with `@` belongs to no scope: it gets
/// the general registry, and nothing where that is empty.
pub proof fn plain_package_uses_registry(config: NpmrcView, package: Seq<char>)
    requires
        package.len() == 0 || package[0] != '@',
    ensures
        config.registry_for(package) == if config.registry.len() == 0 {
            None
        } else {
            Some(config.registry)
        },
{
    assert forall|i: int| !first_serving(config.scopes, package, i) by {
        if 0 <= i < config.scopes.len() && serves(config.scopes[i], package) {
            let prefix = scope_prefix(config.scopes[i].name);
            assert(prefix[0] == '@');
            assert(package.subrange(0, prefix.len() as int)[0] == package[0]);
        }
    }
}

} // verus!
