//! How strictly input schemas are enforced.
use vstd::prelude::*;
use crate::text::{str_eq, concat3};

verus! {

/// Schemas are enforced (`Strict`) or only reported (`Permissive`).
#[derive(Debug, Clone, Copy, PartialEq, Eq, Structural)]
pub enum SchemaMode {
    Strict,
    Permissive,
}

/// The mode for a `--permissive` flag and the value of
/// `GREENTIC_FLOW_STRICT` (`None` when unset): the flag wins, `0` is
/// permissive, `1` or unset is strict, anything else is refused.
pub open spec fn resolve_v(cli_permissive: bool, env: Option<Seq<char>>) -> Result<SchemaMode, Seq<char>> {
    if cli_permissive {
        Ok(SchemaMode::Permissive)
    } else {
        match env {
            None => Ok(SchemaMode::Strict),
            Some(v) => if v == "0"@ {
                Ok(SchemaMode::Permissive)
            } else if v == "1"@ {
                Ok(SchemaMode::Strict)
            } else {
                Err("GREENTIC_FLOW_STRICT must be '0' or '1', got '"@ + v + "'"@)
            },
        }
    }
}

impl SchemaMode {
    /// Resolves the mode from the CLI flag and the environment value.
    pub fn resolve(cli_permissive: bool, env_value: Option<&str>) -> (r: Result<SchemaMode, String>)
        ensures
            match r {
                Ok(m) => resolve_v(cli_permissive, crate::error::opt_ref(env_value)) == Ok::<SchemaMode, Seq<char>>(m),
                Err(e) => resolve_v(cli_permissive, crate::error::opt_ref(env_value)) == Err::<SchemaMode, Seq<char>>(e@),
            },
    {
        if cli_permissive {
            return Ok(SchemaMode::Permissive);
        }
        match env_value {
            None => Ok(SchemaMode::Strict),
            Some(v) => {
                if str_eq(v, "0") {
                    Ok(SchemaMode::Permissive)
                } else if str_eq(v, "1") {
                    Ok(SchemaMode::Strict)
                } else {
                    Err(concat3("GREENTIC_FLOW_STRICT must be '0' or '1', got '", v, "'"))
                }
            },
        }
    }

    pub fn is_permissive(&self) -> (r: bool)
        ensures
            r == (*self == SchemaMode::Permissive),
    {
        match self {
            SchemaMode::Permissive => true,
            SchemaMode::Strict => false,
        }
    }
}

} // verus!
