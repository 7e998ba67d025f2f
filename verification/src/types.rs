//! The registry's data types.

use vstd::prelude::*;

verus! {

/// The error that `serde_json` reports on text that is not the expected JSON.
#[verifier::external_type_specification]
#[verifier::external_body]
pub struct ExJsonError(serde_json::Error);

/// The error that the `toml` crate reports on text that is not the expected TOML.
#[verifier::external_type_specification]
#[verifier::external_body]
pub struct ExTomlError(toml::de::Error);

/// A repository entry in the fleet registry.
#[derive(Debug, PartialEq, Eq)]
pub struct Repo {
    pub name: String,
    pub description: String,
    pub language: String,
    pub url: String,
    pub updated_at: String,
}

impl Clone for Repo {
    fn clone(&self) -> (r: Self)
        ensures
            r == *self,
    {
        Repo {
            name: self.name.clone(),
            description: self.description.clone(),
            language: self.language.clone(),
            url: self.url.clone(),
            updated_at: self.updated_at.clone(),
        }
    }
}

/// A capability provided by one or more repos in the fleet.
#[derive(Debug, PartialEq, Eq)]
pub struct Capability {
    pub name: String,
    pub category: String,
    pub provides: String,
    pub description: String,
}

impl Clone for Capability {
    fn clone(&self) -> (r: Self)
        ensures
            r == *self,
    {
        Capability {
            name: self.name.clone(),
            category: self.category.clone(),
            provides: self.provides.clone(),
            description: self.description.clone(),
        }
    }
}

/// A locally discovered repository.
#[derive(Debug, PartialEq, Eq)]
pub struct LocalRepo {
    pub path: String,
    pub name: String,
    pub capabilities: Vec<Capability>,
}

impl Clone for LocalRepo {
    fn clone(&self) -> (r: Self)
        ensures
            r.path == self.path,
            r.name == self.name,
            r.capabilities@ == self.capabilities@,
    {
        let capabilities = self.capabilities.clone();
        assert(capabilities@ =~= self.capabilities@);
        LocalRepo { path: self.path.clone(), name: self.name.clone(), capabilities }
    }
}

/// Errors that can occur during registry operations.
#[derive(Debug)]
pub enum RegistryError {
    Http(String),
    Json(serde_json::Error),
    CacheIo(String),
    NotFound(String),
    Toml(toml::de::Error),
    Other(String),
}

} // verus!
