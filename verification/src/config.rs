//! The configuration values the verified core works with.  Loading them
//! from files is the surrounding binary's business; the core only holds
//! plain settings and the runtime-environment switch.

use vstd::prelude::*;

use crate::telemetry::LoggerFormat;
use crate::textutil::str_chars;

verus! {

/// Settings of the HTTP application.
pub struct AppSettings {
    pub port: u16,
    pub host: String,
    pub logger_format: LoggerFormat,
    pub base_url: String,
}

/// Settings of the blob storage root.
pub struct BlobStorageSettings {
    pub base_dir: String,
    pub ephemeral: bool,
}

/// The possible runtime environment for the application.
pub enum Environment {
    Local,
    Production,
}

/// `a` and `b` are the same letter up to ASCII case.
pub open spec fn char_eq_ignore_ascii_case(a: char, b: char) -> bool {
    a == b || ('A' <= a && a <= 'Z' && b as int == a as int + 32)
}

/// `s` spells `t` up to ASCII case on `s`'s side (`t` lower case).
pub open spec fn eq_ignore_ascii_case_spec(s: Seq<char>, t: Seq<char>) -> bool {
    s.len() == t.len() && forall|i: int|
        0 <= i < s.len() ==> char_eq_ignore_ascii_case(#[trigger] s[i], t[i])
}

fn chars_eq_ignore_ascii_case(s: &Vec<char>, lit: &str) -> (r: bool)
    ensures
        r == eq_ignore_ascii_case_spec(s@, lit@),
{
    let m = lit.unicode_len();
    if s.len() != m {
        return false;
    }
    let mut i: usize = 0;
    while i < m
        invariant
            i <= m,
            m == lit@.len(),
            s@.len() == m,
            forall|j: int| 0 <= j < i ==> char_eq_ignore_ascii_case(#[trigger] s@[j], lit@[j]),
        decreases m - i,
    {
        let a = s[i];
        let b = lit.get_char(i);
        let same = a == b || ('A' <= a && a <= 'Z' && (b as u32) == (a as u32) + 32);
        if !same {
            return false;
        }
        i = i + 1;
    }
    true
}

impl Environment {
    /// The environment's canonical name.
    pub fn as_str(&self) -> (r: &'static str)
        ensures
            r@ == (match self {
                Environment::Local => "local"@,
                Environment::Production => "production"@,
            }),
    {
        match self {
            Environment::Local => "local",
            Environment::Production => "production",
        }
    }

    /// Read an environment name, ignoring ASCII case; anything else is
    /// rejected with a message naming the supported values.
    pub fn try_from(s: String) -> (r: Result<Environment, String>)
        ensures
            eq_ignore_ascii_case_spec(s@, "local"@) ==> r == Ok::<Environment, String>(
                Environment::Local,
            ),
            !eq_ignore_ascii_case_spec(s@, "local"@) && eq_ignore_ascii_case_spec(
                s@,
                "production"@,
            ) ==> r == Ok::<Environment, String>(Environment::Production),
            !eq_ignore_ascii_case_spec(s@, "local"@) && !eq_ignore_ascii_case_spec(
                s@,
                "production"@,
            ) ==> r is Err,
    {
        let chars = str_chars(s.as_str());
        if chars_eq_ignore_ascii_case(&chars, "local") {
            Ok(Environment::Local)
        } else if chars_eq_ignore_ascii_case(&chars, "production") {
            Ok(Environment::Production)
        } else {
            let mut msg = s;
            msg.append(" is not a supported environment. Use either `local` or `production`.");
            Err(msg)
        }
    }
}

} // verus!
