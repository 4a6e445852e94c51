//! Tag names that a user attaches to records.
use vstd::prelude::*;

verus! {

/// A tag name: ASCII letters, digits, `_` and `-`, starting with a letter or
/// digit.
#[derive(Debug, Clone, PartialEq, Eq, PartialOrd, Ord, Hash)]
pub struct TagName(pub String);

/// Why a text is not a tag name.
#[derive(Debug, Clone, Copy, PartialEq, Eq)]
pub struct InvalidTagName;

pub open spec fn is_alnum(c: char) -> bool {
    ('0' <= c && c <= '9') || ('a' <= c && c <= 'z') || ('A' <= c && c <= 'Z')
}

pub open spec fn is_tag_char(c: char) -> bool {
    is_alnum(c) || c == '_' || c == '-'
}

pub open spec fn valid_tag(s: Seq<char>) -> bool {
    &&& s.len() > 0
    &&& is_alnum(s[0])
    &&& forall|i: int| 0 <= i < s.len() ==> is_tag_char(#[trigger] s[i])
}

impl TagName {
    /// Reads a tag name; fails exactly when `s` breaks the tag syntax.
    pub fn parse(s: &str) -> (r: Result<TagName, InvalidTagName>)
        ensures
            r is Ok <==> valid_tag(s@),
            r is Ok ==> r->Ok_0.0@ == s@,
    {
        let n = s.unicode_len();
        if n == 0 {
            return Err(InvalidTagName);
        }
        let c0 = s.get_char(0);
        if !(('0' <= c0 && c0 <= '9') || ('a' <= c0 && c0 <= 'z') || ('A' <= c0 && c0 <= 'Z')) {
            return Err(InvalidTagName);
        }
        let mut i: usize = 0;
        while i < n
            invariant
                n == s@.len(),
                i <= n,
                forall|j: int| 0 <= j < i ==> is_tag_char(#[trigger] s@[j]),
            decreases n - i,
        {
            let c = s.get_char(i);
            if !(('0' <= c && c <= '9') || ('a' <= c && c <= 'z') || ('A' <= c && c <= 'Z') || c
                == '_' || c == '-') {
                assert(!is_tag_char(s@[i as int]));
                return Err(InvalidTagName);
            }
            i = i + 1;
        }
        Ok(TagName(String::from_str(s)))
    }

    /// The tag's text.
    pub fn as_str(&self) -> (r: &str)
        ensures
            r@ == self.0@,
    {
        self.0.as_str()
    }
}

impl std::str::FromStr for TagName {
    type Err = InvalidTagName;

    fn from_str(s: &str) -> Result<TagName, InvalidTagName> {
        TagName::parse(s)
    }
}

} // verus!
