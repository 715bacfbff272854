//! The publish profile: the policy of a publication.

use vstd::prelude::*;

verus! {

/// Options of the planner.
#[derive(Clone, Copy, Debug, PartialEq, Eq, Structural)]
pub struct GenerationOptions {
    /// Replace every function, whether it differs or not.
    pub always_recreate_function: bool,
    /// Enable every extension, whether the database has it or not.
    pub force_extension_upgrade: bool,
}

/// The policy of a publication.
#[derive(Clone, Debug, PartialEq, Eq)]
pub struct PublishProfile {
    pub version: String,
    /// Whether the plan may drop what the database has and the package does
    /// not declare.
    pub allow_drops: bool,
    pub generation_options: GenerationOptions,
}

impl PublishProfile {
    /// The profile that the options of a profile file give. An option that
    /// the file does not hold is off, and a version that it does not hold is
    /// the empty text.
    pub fn from_options(
        version: Option<String>,
        allow_drops: Option<bool>,
        always_recreate_function: Option<bool>,
        force_extension_upgrade: Option<bool>,
    ) -> (p: PublishProfile)
        ensures
            p.version@ == (match version {
                Some(v) => v@,
                None => Seq::empty(),
            }),
            p.allow_drops == (allow_drops == Some(true)),
            p.generation_options.always_recreate_function == (always_recreate_function == Some(true)),
            p.generation_options.force_extension_upgrade == (force_extension_upgrade == Some(true)),
    {
        PublishProfile {
            version: match version {
                Some(v) => v,
                None => String::new(),
            },
            allow_drops: is_on(allow_drops),
            generation_options: GenerationOptions {
                always_recreate_function: is_on(always_recreate_function),
                force_extension_upgrade: is_on(force_extension_upgrade),
            },
        }
    }
}

/// Whether an option is held and on.
pub fn is_on(option: Option<bool>) -> (r: bool)
    ensures
        r == (option == Some(true)),
{
    match option {
        Some(b) => b,
        None => false,
    }
}

impl Default for GenerationOptions {
    fn default() -> (r: Self)
        ensures
            !r.always_recreate_function,
            !r.force_extension_upgrade,
    {
        GenerationOptions { always_recreate_function: false, force_extension_upgrade: false }
    }
}

impl Default for PublishProfile {
    fn default() -> (r: Self)
        ensures
            r.version@ == Seq::<char>::empty(),
            !r.allow_drops,
            !r.generation_options.always_recreate_function,
            !r.generation_options.force_extension_upgrade,
    {
        PublishProfile {
            version: String::new(),
            allow_drops: false,
            generation_options: GenerationOptions {
                always_recreate_function: false,
                force_extension_upgrade: false,
            },
        }
    }
}

} // verus!
