//! Manifest text in, rewritten manifest text out.
use vstd::prelude::*;
use crate::document::{doc_view, parse_manifest, parsed_view, render_manifest, rendered_text};
use crate::error::ManifestError;
use crate::inventory::{names_of, QualifyingDependency};
use crate::member::{
    apply_member, dep_table_keys, malformed_in, member_decls_ok, member_flag, member_rewrite,
    member_schema_ok,
};
use crate::document::{top_state_of, TableState};
use crate::root::{apply_root, root_inserts, root_rewrite, root_schema_ok, workspace_key};

verus! {

/// Rewrites the root manifest `text` so that its shared table holds every
/// dependency of `deps`. Returns the new text where an entry was inserted and
/// `None` where none was, so that such a file need not be written.
pub fn update_root_manifest(text: &str, deps: &Vec<QualifyingDependency>) -> (r: Result<Option<String>, ManifestError>)
    ensures
        match parsed_view(text@) {
            None => r matches Err(ManifestError::Parse(_)),
            Some(v) => match r {
                Ok(t) => {
                    &&& root_schema_ok(v)
                    &&& (t is Some <==> root_inserts(v, deps@))
                    &&& (t matches Some(s) ==> exists|d: toml_edit::DocumentMut|
                        s@ == rendered_text(d) && #[trigger] doc_view(d) == root_rewrite(v, deps@))
                },
                Err(e) => {
                    &&& !root_schema_ok(v)
                    &&& e matches ManifestError::Schema { key }
                    &&& key@ == if top_state_of(v, workspace_key()) == TableState::NotTable {
                        "workspace"@
                    } else {
                        "workspace.dependencies"@
                    }
                },
            },
        },
{
    let mut doc = match parse_manifest(text) {
        Ok(d) => d,
        Err(e) => {
            return Err(ManifestError::Parse(e));
        },
    };
    match apply_root(&mut doc, deps) {
        Ok(true) => Ok(Some(render_manifest(&doc))),
        Ok(false) => Ok(None),
        Err(e) => Err(e),
    }
}

/// Rewrites the member manifest `text` so that each entry named in `deps`
/// delegates to the shared table. Returns the new text where an entry was
/// modified (a bare requirement replaced, or a marker inserted or flipped)
/// and `None` where none was.
pub fn update_member_manifest(text: &str, deps: &Vec<QualifyingDependency>) -> (r: Result<Option<String>, ManifestError>)
    ensures
        match parsed_view(text@) {
            None => r matches Err(ManifestError::Parse(_)),
            Some(v) => match r {
                Ok(t) => {
                    &&& member_schema_ok(v)
                    &&& member_decls_ok(v, names_of(deps@))
                    &&& (t is Some <==> member_flag(v, names_of(deps@)))
                    &&& (t matches Some(s) ==> exists|d: toml_edit::DocumentMut|
                        s@ == rendered_text(d) && #[trigger] doc_view(d) == member_rewrite(v, names_of(deps@)))
                },
                Err(e) => match e {
                    ManifestError::Schema { key } => {
                        &&& !member_schema_ok(v)
                        &&& exists|i: int|
                            0 <= i < 3 && #[trigger] dep_table_keys()[i] == key@
                                && top_state_of(v, key@) == TableState::NotTable
                    },
                    ManifestError::MalformedDeclaration { name } => {
                        &&& member_schema_ok(v)
                        &&& !member_decls_ok(v, names_of(deps@))
                        &&& malformed_in(v, names_of(deps@), name@)
                    },
                    ManifestError::Parse(_) => false,
                },
            },
        },
{
    let mut doc = match parse_manifest(text) {
        Ok(d) => d,
        Err(e) => {
            return Err(ManifestError::Parse(e));
        },
    };
    match apply_member(&mut doc, deps) {
        Ok(true) => Ok(Some(render_manifest(&doc))),
        Ok(false) => Ok(None),
        Err(e) => Err(e),
    }
}

} // verus!
