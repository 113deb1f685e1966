//! Validated user names and addresses for the mail-sending side.

use vstd::prelude::*;
use vstd::string::StrSliceExecFns;

use crate::textutil::all_blank;
use crate::textutil::str_chars;

verus! {

/// A validated user: address and display name.
pub struct NewUser {
    pub email: UserEmail,
    pub name: UserName,
}

/// A display name: non-blank, at most 256 grapheme clusters, free of
/// markup-sensitive characters.
pub struct UserName(String);

/// An email address: holds an `@`.
pub struct UserEmail(String);

/// What `unicode_segmentation` counts as extended grapheme clusters; a
/// function of the characters alone.
pub uninterp spec fn grapheme_count_of(s: Seq<char>) -> usize;

/// Relies on `unicode_segmentation::UnicodeSegmentation::graphemes`: the
/// number of extended grapheme clusters; every cluster holds at least one
/// character, and only an empty text has none.
#[verifier::external_body]
fn grapheme_count(s: &str) -> (n: usize)
    ensures
        n == grapheme_count_of(s@),
        n <= s@.len(),
        s@.len() == 0 ==> n == 0,
{
    unicode_segmentation::UnicodeSegmentation::graphemes(s, true).count()
}

/// A character a user name must not contain.
pub open spec fn is_forbidden_name_char(c: char) -> bool {
    c == '/' || c == '(' || c == ')' || c == '"' || c == '<' || c == '>' || c == '\\' || c == '{'
        || c == '}'
}

impl UserName {
    /// The validated text.
    pub closed spec fn text(&self) -> Seq<char> {
        self.0@
    }

    /// The validated text.
    pub fn as_ref(&self) -> (r: &str)
        ensures
            r@ == self.text(),
    {
        self.0.as_str()
    }

    /// Accept a name that is not blank, has at most 256 grapheme clusters,
    /// and holds no forbidden character.
    pub fn try_from(name: String) -> (r: Result<UserName, String>)
        ensures
            match r {
                Ok(u) => {
                    &&& u.text() == name@
                    &&& !all_blank(name@)
                    &&& grapheme_count_of(name@) <= 256
                    &&& forall|i: int| 0 <= i < name@.len() ==> !is_forbidden_name_char(#[trigger] name@[i])
                },
                Err(_) => all_blank(name@) || grapheme_count_of(name@) > 256 || exists|i: int|
                    0 <= i < name@.len() && is_forbidden_name_char(#[trigger] name@[i]),
            },
    {
        let chars = str_chars(name.as_str());
        if crate::textutil::range_is_blank(&chars, 0, chars.len()) {
            proof {
                assert(chars@.subrange(0, chars@.len() as int) =~= name@);
            }
            return Err("name must not be empty".to_owned());
        }
        proof {
            assert(chars@.subrange(0, chars@.len() as int) =~= name@);
        }
        if grapheme_count(name.as_str()) > 256 {
            return Err("name is too long".to_owned());
        }
        let n = chars.len();
        let mut i: usize = 0;
        while i < n
            invariant
                i <= n,
                n == chars@.len(),
                chars@ == name@,
                forall|j: int| 0 <= j < i ==> !is_forbidden_name_char(#[trigger] name@[j]),
            decreases n - i,
        {
            let c = chars[i];
            if c == '/' || c == '(' || c == ')' || c == '"' || c == '<' || c == '>' || c == '\\'
                || c == '{' || c == '}' {
                return Err("name contains forbidden characters".to_owned());
            }
            i = i + 1;
        }
        Ok(UserName(name))
    }
}

impl UserEmail {
    /// The validated address.
    pub closed spec fn text(&self) -> Seq<char> {
        self.0@
    }

    /// The validated address.
    pub fn as_ref(&self) -> (r: &str)
        ensures
            r@ == self.text(),
    {
        self.0.as_str()
    }

    /// Accept an address that holds an `@`.
    pub fn try_from(email: String) -> (r: Result<UserEmail, String>)
        ensures
            match r {
                Ok(u) => u.text() == email@ && exists|i: int|
                    0 <= i < email@.len() && email@[i] == '@',
                Err(_) => forall|i: int| 0 <= i < email@.len() ==> email@[i] != '@',
            },
    {
        let chars = str_chars(email.as_str());
        match crate::textutil::find_char_in(&chars, '@', 0, chars.len()) {
            Some(_) => Ok(UserEmail(email)),
            None => Err("email must contain an @".to_owned()),
        }
    }
}

} // verus!
