//! Session settings, item limits and SQL identifier checks.
use vstd::prelude::*;

use crate::errors::{AgentsError, Result};
use crate::text::{chars_of, concat3};

verus! {

/// Session configuration settings.
#[derive(Clone, Copy, Debug, PartialEq, Eq, Structural)]
pub struct SessionSettings {
    pub limit: Option<usize>,
}

impl SessionSettings {
    /// These settings with those of `override_settings` taking precedence where set.
    pub fn resolve(&self, override_settings: Option<&Self>) -> (res: Self)
        ensures
            res.limit == (match override_settings {
                Some(o) => if o.limit.is_some() {
                    o.limit
                } else {
                    self.limit
                },
                None => self.limit,
            }),
    {
        match override_settings {
            None => *self,
            Some(o) => SessionSettings {
                limit: match o.limit {
                    Some(l) => Some(l),
                    None => self.limit,
                },
            },
        }
    }
}

/// The item limit to use: the explicit one, else the settings' one.
pub fn resolve_session_limit(explicit_limit: Option<usize>, settings: Option<&SessionSettings>) -> (res:
    Option<usize>)
    ensures
        res == (match explicit_limit {
            Some(l) => Some(l),
            None => match settings {
                Some(s) => s.limit,
                None => None,
            },
        }),
{
    match explicit_limit {
        Some(l) => Some(l),
        None => match settings {
            Some(s) => s.limit,
            None => None,
        },
    }
}

/// Whether `c` is an ASCII letter or digit.
pub open spec fn ascii_alphanumeric(c: char) -> bool {
    ('0' <= c && c <= '9') || ('a' <= c && c <= 'z') || ('A' <= c && c <= 'Z')
}

/// Whether `s` is a usable SQLite identifier: non-empty, ASCII letters, digits and `_` only.
pub open spec fn valid_sql_identifier(s: Seq<char>) -> bool {
    s.len() > 0 && forall|i: int| 0 <= i < s.len() ==> ascii_alphanumeric(#[trigger] s[i]) || s[i]
        == '_'
}

/// Refuses identifiers other than non-empty runs of ASCII letters, digits and `_`.
pub fn validate_sql_identifier(identifier: &str) -> (res: Result<()>)
    ensures
        res.is_ok() == valid_sql_identifier(identifier@),
        res matches Err(e) ==> e.is_message(
            "invalid SQLite identifier `"@ + identifier@ + "`"@,
        ),
{
    let cs = chars_of(identifier);
    let mut valid = cs.len() > 0;
    let mut i: usize = 0;
    while i < cs.len()
        invariant
            i <= cs@.len(),
            cs@ == identifier@,
            valid == (cs@.len() > 0 && forall|k: int| 0 <= k < i ==> ascii_alphanumeric(
                #[trigger] cs@[k],
            ) || cs@[k] == '_'),
        decreases cs@.len() - i,
    {
        let c = cs[i];
        let ok = ('0' <= c && c <= '9') || ('a' <= c && c <= 'z') || ('A' <= c && c <= 'Z') || c
            == '_';
        valid = valid && ok;
        i = i + 1;
    }
    if valid {
        Ok(())
    } else {
        Err(AgentsError::message(concat3("invalid SQLite identifier `", identifier, "`")))
    }
}

} // verus!
