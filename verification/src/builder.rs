//! A software-package description assembled step by step by a builder.

use vstd::prelude::*;

verus! {

/// Languages a package can declare.
#[derive(Debug)]
pub enum Language {
    Rust,
    Java,
    Perl,
}

/// One requirement on another package: its name and the expression that
/// picks acceptable versions of it.
#[derive(Clone, Debug)]
pub struct Dependency {
    pub name: String,
    pub version_expression: String,
}

/// A description of a software package.
#[derive(Debug)]
pub struct Package {
    pub name: String,
    pub version: String,
    pub authors: Vec<String>,
    pub dependencies: Vec<Dependency>,
    pub language: Option<Language>,
}

impl Package {
    /// Returns this package as a dependency for other packages to declare:
    /// the requirement carries this package's name and pins its version.
    pub fn as_dependency(&self) -> (d: Dependency)
        ensures
            d.name@ == self.name@,
            d.version_expression@ == self.version@,
    {
        Dependency { name: self.name.clone(), version_expression: self.version.clone() }
    }
}

/// Builds a [`Package`] field by field; what is never set keeps its empty
/// default.
pub struct PackageBuilder(pub Package);

impl PackageBuilder {
    /// Starts a package of the given name with everything else empty.
    pub fn new(name: String) -> (b: Self)
        ensures
            b.0.name@ == name@,
            b.0.version@ == Seq::<char>::empty(),
            b.0.authors@ == Seq::<String>::empty(),
            b.0.dependencies@ == Seq::<Dependency>::empty(),
            b.0.language is None,
    {
        PackageBuilder(
            Package {
                name,
                version: String::new(),
                authors: Vec::new(),
                dependencies: Vec::new(),
                language: None,
            },
        )
    }

    /// Sets the package version.
    pub fn version(self, version: String) -> (b: Self)
        ensures
            b.0 == (Package { version, ..self.0 }),
    {
        let mut this = self;
        this.0.version = version;
        this
    }

    /// Sets the package authors.
    pub fn authors(self, authors: Vec<String>) -> (b: Self)
        ensures
            b.0 == (Package { authors, ..self.0 }),
    {
        let mut this = self;
        this.0.authors = authors;
        this
    }

    /// Adds one more dependency.
    pub fn dependency(self, dependency: Dependency) -> (b: Self)
        ensures
            b.0.dependencies@ == self.0.dependencies@.push(dependency),
            b.0.name == self.0.name,
            b.0.version == self.0.version,
            b.0.authors == self.0.authors,
            b.0.language == self.0.language,
    {
        let mut this = self;
        this.0.dependencies.push(dependency);
        this
    }

    /// Sets the language. A package that never had one set keeps none.
    pub fn language(self, language: Language) -> (b: Self)
        ensures
            b.0 == (Package { language: Some(language), ..self.0 }),
    {
        let mut this = self;
        this.0.language = Some(language);
        this
    }

    /// Hands out the finished package.
    pub fn build(self) -> (p: Package)
        ensures
            p == self.0,
    {
        self.0
    }
}

} // verus!
