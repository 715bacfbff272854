//! The project manifest.

use vstd::prelude::*;
use vstd::string::StringExecFns;
use crate::errors::PsqlpackError;
use crate::text::chars_of;

verus! {

/// What the manifest of a project says: the schema of unqualified names,
/// where the sources lie, and the scripts to run before and after a
/// publication.
#[derive(Clone, Debug, PartialEq, Eq)]
pub struct Project {
    pub default_schema: String,
    pub include_paths: Vec<String>,
    pub pre_deploy_scripts: Vec<String>,
    pub post_deploy_scripts: Vec<String>,
}

/// The default schema of a project is missing: the manifest holds none, or
/// holds the empty text for it.
pub open spec fn schema_missing(default_schema: Option<String>) -> bool {
    match default_schema {
        Some(s) => s@.len() == 0,
        None => true,
    }
}

impl Project {
    /// A project from the entries of its manifest. The default schema must be
    /// there and must not be the empty text; a list that is missing is
    /// empty.
    pub fn from_manifest(
        default_schema: Option<String>,
        include_paths: Option<Vec<String>>,
        pre_deploy_scripts: Option<Vec<String>>,
        post_deploy_scripts: Option<Vec<String>>,
    ) -> (r: Result<Project, PsqlpackError>)
        ensures
            match r {
                Ok(p) => {
                    &&& !schema_missing(default_schema)
                    &&& default_schema == Some(p.default_schema)
                    &&& p.include_paths@ == match include_paths {
                        Some(v) => v@,
                        None => Seq::empty(),
                    }
                    &&& p.pre_deploy_scripts@ == match pre_deploy_scripts {
                        Some(v) => v@,
                        None => Seq::empty(),
                    }
                    &&& p.post_deploy_scripts@ == match post_deploy_scripts {
                        Some(v) => v@,
                        None => Seq::empty(),
                    }
                },
                Err(e) => {
                    &&& schema_missing(default_schema)
                    &&& e matches PsqlpackError::ProjectError(m)
                    &&& m@ == "Missing default_schema"@
                },
            },
    {
        match default_schema {
            None => Err(PsqlpackError::ProjectError(String::from_str("Missing default_schema"))),
            Some(schema) => if chars_of(schema.as_str()).len() == 0 {
                Err(PsqlpackError::ProjectError(String::from_str("Missing default_schema")))
            } else {
                Ok(
                    Project {
                        default_schema: schema,
                        include_paths: match include_paths {
                            Some(v) => v,
                            None => Vec::new(),
                        },
                        pre_deploy_scripts: match pre_deploy_scripts {
                            Some(v) => v,
                            None => Vec::new(),
                        },
                        post_deploy_scripts: match post_deploy_scripts {
                            Some(v) => v,
                            None => Vec::new(),
                        },
                    },
                )
            },
        }
    }
}

} // verus!
