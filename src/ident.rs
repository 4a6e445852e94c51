//! Catalog identifiers: their syntax, the optional version suffix, and the
//! directory name that stands for an identifier on disk.
use vstd::prelude::*;

use crate::text::{parsed_u32, parse_u32, push_char};

verus! {

/// Why a text is not an identifier (with an optional version suffix).
#[derive(Debug, Clone, Copy, PartialEq, Eq)]
pub enum IdError {
    /// The identifier part breaks the identifier syntax.
    InvalidId,
    /// The text after the `v` is not a version number.
    InvalidVersion,
}

/// A normalized catalog identifier, such as `2401.00001` or `math/0601001`.
#[derive(Debug, Clone, PartialEq, Eq, Hash)]
pub struct ArxivId(String);

pub open spec fn is_id_first_char(c: char) -> bool {
    ('0' <= c && c <= '9') || ('a' <= c && c <= 'z')
}

pub open spec fn is_id_char(c: char) -> bool {
    is_id_first_char(c) || c == '.' || c == '/' || c == '-'
}

/// Lowercase letters, digits, dots, slashes and hyphens, starting with a
/// letter or digit, shorter than twenty characters.
pub open spec fn valid_id(s: Seq<char>) -> bool {
    &&& 0 < s.len() < 20
    &&& is_id_first_char(s[0])
    &&& forall|i: int| 0 <= i < s.len() ==> is_id_char(#[trigger] s[i])
}

/// `s` with every `from` replaced by `to`.
pub open spec fn replace_char(s: Seq<char>, from: char, to: char) -> Seq<char> {
    Seq::new(s.len(), |i: int| if s[i] == from { to } else { s[i] })
}

/// `base` and `name` joined by one path separator.
pub open spec fn path_join(base: Seq<char>, name: Seq<char>) -> Seq<char> {
    if base.len() == 0 {
        name
    } else if base.last() == '/' {
        base + name
    } else {
        base + seq!['/'] + name
    }
}

/// The position of the first `c` in `s`, if any.
pub open spec fn first_index_of(s: Seq<char>, c: char) -> Option<int> {
    if exists|i: int| 0 <= i < s.len() && s[i] == c {
        Some(choose|i: int| 0 <= i < s.len() && s[i] == c && forall|j: int| 0 <= j < i ==> s[j] != c)
    } else {
        None
    }
}

/// What `parse_with_version` gives for `s`: the identifier before the first
/// `v` and the version number after it, or the whole text as an identifier.
pub open spec fn parsed_with_version(s: Seq<char>) -> Result<(Seq<char>, Option<u32>), IdError> {
    match first_index_of(s, 'v') {
        Some(k) => {
            let a = s.subrange(0, k);
            let b = s.subrange(k + 1, s.len() as int);
            if !valid_id(a) {
                Err(IdError::InvalidId)
            } else {
                match parsed_u32(b) {
                    Some(n) => Ok((a, Some(n))),
                    None => Err(IdError::InvalidVersion),
                }
            }
        },
        None => if valid_id(s) {
            Ok((s, None))
        } else {
            Err(IdError::InvalidId)
        },
    }
}

proof fn lemma_first_index(s: Seq<char>, c: char, k: int)
    requires
        0 <= k < s.len(),
        s[k] == c,
        forall|j: int| 0 <= j < k ==> s[j] != c,
    ensures
        first_index_of(s, c) == Some(k),
{
    let w = choose|i: int| 0 <= i < s.len() && s[i] == c && forall|j: int| 0 <= j < i ==> s[j] != c;
    assert(0 <= w < s.len() && s[w] == c && forall|j: int| 0 <= j < w ==> s[j] != c);
    if w < k {
        assert(s[w] != c);
    }
    if k < w {
        assert(s[k] != c);
    }
}

/// Copies the characters of `s` in `[from, to)` with `from` replaced by `to_c`.
fn replaced_range(s: &str, lo: usize, hi: usize, from: char, to_c: char) -> (r: String)
    requires
        lo <= hi <= s@.len(),
    ensures
        r@ == replace_char(s@.subrange(lo as int, hi as int), from, to_c),
{
    let mut r = String::new();
    let mut i: usize = lo;
    while i < hi
        invariant
            lo <= i <= hi,
            hi <= s@.len(),
            r@ == replace_char(s@.subrange(lo as int, i as int), from, to_c),
        decreases hi - i,
    {
        let c = s.get_char(i);
        if c == from {
            push_char(&mut r, to_c);
        } else {
            push_char(&mut r, c);
        }
        i = i + 1;
        assert(r@ =~= replace_char(s@.subrange(lo as int, i as int), from, to_c));
    }
    r
}

/// Whether `s` is the text of an identifier.
fn check_id(s: &str) -> (r: bool)
    ensures
        r == valid_id(s@),
{
    let n = s.unicode_len();
    if n == 0 || n >= 20 {
        return false;
    }
    let c0 = s.get_char(0);
    if !(('0' <= c0 && c0 <= '9') || ('a' <= c0 && c0 <= 'z')) {
        return false;
    }
    let mut i: usize = 0;
    while i < n
        invariant
            n == s@.len(),
            i <= n,
            forall|j: int| 0 <= j < i ==> is_id_char(#[trigger] s@[j]),
        decreases n - i,
    {
        let c = s.get_char(i);
        if !(('0' <= c && c <= '9') || ('a' <= c && c <= 'z') || c == '.' || c == '/' || c == '-') {
            assert(!is_id_char(s@[i as int]));
            return false;
        }
        i = i + 1;
    }
    true
}

impl View for ArxivId {
    type V = Seq<char>;

    closed spec fn view(&self) -> Seq<char> {
        self.0@
    }
}

impl ArxivId {
    /// Reads an identifier; fails exactly when `s` breaks the identifier syntax.
    pub fn parse(s: &str) -> (r: Result<ArxivId, IdError>)
        ensures
            r is Ok <==> valid_id(s@),
            r is Ok ==> r->Ok_0@ == s@,
            r is Err ==> r->Err_0 == IdError::InvalidId,
    {
        if check_id(s) {
            Ok(ArxivId(String::from_str(s)))
        } else {
            Err(IdError::InvalidId)
        }
    }

    /// The identifier's text.
    pub fn as_str(&self) -> (r: &str)
        ensures
            r@ == self@,
    {
        self.0.as_str()
    }

    /// The identifier's text, as an owned string.
    pub fn to_string(&self) -> (r: String)
        ensures
            r@ == self@,
    {
        self.0.clone()
    }

    /// Parses an identifier with an optional version specifier, such as
    /// `1234.56789` or `1234.56789v3`.
    pub fn parse_with_version(s: &str) -> (r: Result<(ArxivId, Option<u32>), IdError>)
        ensures
            match (r, parsed_with_version(s@)) {
                (Ok((id, v)), Ok((t, w))) => id@ == t && v == w,
                (Err(e), Err(f)) => e == f,
                _ => false,
            },
    {
        let n = s.unicode_len();
        let mut k: usize = 0;
        while k < n
            invariant
                n == s@.len(),
                k <= n,
                forall|j: int| 0 <= j < k ==> s@[j] != 'v',
            ensures
                k <= n,
                forall|j: int| 0 <= j < k ==> s@[j] != 'v',
                k < n ==> s@[k as int] == 'v',
            decreases n - k,
        {
            if s.get_char(k) == 'v' {
                break;
            }
            k = k + 1;
        }
        if k < n {
            proof {
                lemma_first_index(s@, 'v', k as int);
            }
            let a = s.substring_char(0, k);
            let b = s.substring_char(k + 1, n);
            let id = match ArxivId::parse(a) {
                Ok(id) => id,
                Err(e) => {
                    return Err(e);
                },
            };
            match parse_u32(b) {
                Some(v) => Ok((id, Some(v))),
                None => Err(IdError::InvalidVersion),
            }
        } else {
            assert(!(exists|i: int| 0 <= i < s@.len() && s@[i] == 'v'));
            match ArxivId::parse(s) {
                Ok(id) => Ok((id, None)),
                Err(e) => Err(e),
            }
        }
    }

    /// The identifier made fit for a directory name: every `/` becomes `_`.
    pub fn dir_name(&self) -> (r: String)
        ensures
            r@ == replace_char(self@, '/', '_'),
    {
        let s = self.0.as_str();
        let r = replaced_range(s, 0, s.unicode_len(), '/', '_');
        assert(s@.subrange(0, s@.len() as int) =~= s@);
        r
    }

    /// The inverse of `dir_name`: every `_` becomes `/`, and the result must be
    /// an identifier.
    pub fn from_dir_name(s: &str) -> (r: Option<ArxivId>)
        ensures
            r is Some <==> valid_id(replace_char(s@, '_', '/')),
            r is Some ==> r->Some_0@ == replace_char(s@, '_', '/'),
    {
        let t = replaced_range(s, 0, s.unicode_len(), '_', '/');
        assert(s@.subrange(0, s@.len() as int) =~= s@);
        match ArxivId::parse(t.as_str()) {
            Ok(id) => Some(id),
            Err(_) => None,
        }
    }

    /// The data directory of this identifier under `base_dir`:
    /// `<base_dir>/articles/<dir_name>`.
    pub fn directory(&self, base_dir: &str) -> (r: String)
        ensures
            r@ == path_join(path_join(base_dir@, "articles"@), replace_char(self@, '/', '_')),
    {
        let articles = join_path(base_dir, "articles");
        join_path(articles.as_str(), self.dir_name().as_str())
    }
}

/// `base` and `name` joined by one path separator.
fn join_path(base: &str, name: &str) -> (r: String)
    ensures
        r@ == path_join(base@, name@),
{
    let n = base.unicode_len();
    if n == 0 {
        String::from_str(name)
    } else if base.get_char(n - 1) == '/' {
        String::from_str(base).concat(name)
    } else {
        let mut r = String::from_str(base);
        push_char(&mut r, '/');
        r.concat(name)
    }
}

impl std::str::FromStr for ArxivId {
    type Err = IdError;

    fn from_str(s: &str) -> Result<ArxivId, IdError> {
        ArxivId::parse(s)
    }
}

} // verus!
