use vstd::prelude::*;

verus! {

/// Why a manifest could not be rewritten.
#[derive(Debug)]
pub enum ManifestError {
    /// The text is not a valid manifest.
    Parse(toml_edit::TomlError),
    /// A key that must hold a table holds something else; `key` is its
    /// dotted path.
    Schema { key: String },
    /// A dependency entry of a qualifying name has a shape that the engine
    /// does not recognise.
    MalformedDeclaration { name: String },
}

} // verus!
