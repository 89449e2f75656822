//! Normalization of the path text given for the watched file, before the
//! file system is consulted.

use vstd::prelude::*;

verus! {

/// Whether `c` has Unicode's White_Space property.
pub open spec fn unicode_whitespace(c: char) -> bool {
    let u = c as u32;
    ||| 0x9 <= u <= 0xD
    ||| u == 0x20
    ||| u == 0x85
    ||| u == 0xA0
    ||| u == 0x1680
    ||| 0x2000 <= u <= 0x200A
    ||| u == 0x2028
    ||| u == 0x2029
    ||| u == 0x202F
    ||| u == 0x205F
    ||| u == 0x3000
}

/// Relies on `char::is_whitespace`: whether `c` has Unicode's White_Space
/// property.
#[verifier::external_body]
fn is_whitespace(c: char) -> (r: bool)
    ensures
        r == unicode_whitespace(c),
{
    c.is_whitespace()
}

/// Whether `s` holds no character that can start a root or a prefix on any
/// platform: no `/`, no `\\` and no `:`.
pub open spec fn without_root_or_prefix(s: Seq<char>) -> bool {
    forall|i: int| 0 <= i < s.len() ==> #[trigger] s[i] != '/' && s[i] != '\\' && s[i] != ':'
}

/// Relies on `std::path::Path::is_relative`. Its answer depends on the
/// platform's path syntax, but a path is absolute only when it has a root
/// (and, on Windows, a prefix), which takes a `/`, `\\` or `:`.
#[verifier::external_body]
fn is_relative_here(p: &str) -> (r: bool)
    ensures
        without_root_or_prefix(p@) ==> r,
{
    std::path::Path::new(p).is_relative()
}

/// Whether `s` holds nothing but whitespace.
pub open spec fn blank(s: Seq<char>) -> bool {
    forall|i: int| 0 <= i < s.len() ==> unicode_whitespace(#[trigger] s[i])
}

/// Characters dropped from the front of a relative path.
pub open spec fn strippable(c: char) -> bool {
    unicode_whitespace(c) || c == '\\' || c == '/' || c == '.'
}

/// Whether `k` is the length of the longest prefix of `s` made of strippable
/// characters.
pub open spec fn strippable_prefix(s: Seq<char>, k: int) -> bool {
    &&& 0 <= k <= s.len()
    &&& forall|i: int| 0 <= i < k ==> strippable(#[trigger] s[i])
    &&& k < s.len() ==> !strippable(s[k])
}

/// Whether `r` is the normalized form of path text `s`, where `relative`
/// says whether the platform reads `s` as a relative path: nothing for blank
/// text; for relative text not starting with `.`, `./` followed by the text
/// without its leading whitespace, slashes, backslashes and dots; otherwise
/// the text as it is.
pub open spec fn normalized(s: Seq<char>, relative: bool, r: Option<Seq<char>>) -> bool {
    if blank(s) {
        r is None
    } else if relative && s[0] != '.' {
        exists|k: int| strippable_prefix(s, k) && r == Some(seq!['.', '/'] + s.skip(k))
    } else {
        r == Some(s)
    }
}

/// Path text as a mathematical value, when there is one.
pub open spec fn opt_text(r: Option<String>) -> Option<Seq<char>> {
    match r {
        Some(x) => Some(x@),
        None => None,
    }
}

/// Normalizes path text `path`, which the platform reads as a relative path
/// when `relative` is set. `None` when the text is blank.
pub fn normalize_path(path: &str, relative: bool) -> (r: Option<String>)
    ensures
        normalized(path@, relative, opt_text(r)),
{
    let n = path.unicode_len();
    let mut i: usize = 0;
    while i < n
        invariant
            i <= n == path@.len(),
            forall|j: int| 0 <= j < i ==> unicode_whitespace(#[trigger] path@[j]),
        ensures
            i <= n,
            forall|j: int| 0 <= j < i ==> unicode_whitespace(#[trigger] path@[j]),
            i < n ==> !unicode_whitespace(path@[i as int]),
        decreases n - i,
    {
        if !is_whitespace(path.get_char(i)) {
            break;
        }
        i = i + 1;
    }
    if i == n {
        return None;
    }
    assert(!blank(path@));
    if !relative || path.get_char(0) == '.' {
        return Some(path.to_owned());
    }
    let mut k: usize = 0;
    while k < n
        invariant
            k <= n == path@.len(),
            forall|j: int| 0 <= j < k ==> strippable(#[trigger] path@[j]),
        ensures
            k <= n,
            forall|j: int| 0 <= j < k ==> strippable(#[trigger] path@[j]),
            k < n ==> !strippable(path@[k as int]),
        decreases n - k,
    {
        let c = path.get_char(k);
        if !(is_whitespace(c) || c == '\\' || c == '/' || c == '.') {
            break;
        }
        k = k + 1;
    }
    let rest = path.substring_char(k, n);
    proof {
        reveal_strlit("./");
    }
    let mut out = String::from_str("./");
    out.append(rest);
    assert(strippable_prefix(path@, k as int));
    assert(out@ =~= seq!['.', '/'] + path@.skip(k as int));
    Some(out)
}

/// Normalizes path text `path` under this platform's path syntax. `None` when
/// the text is blank.
pub fn prepare_path(path: &str) -> (r: Option<String>)
    ensures
        exists|relative: bool| normalized(path@, relative, opt_text(r)),
        without_root_or_prefix(path@) ==> normalized(path@, true, opt_text(r)),
{
    let relative = is_relative_here(path);
    normalize_path(path, relative)
}

} // verus!
