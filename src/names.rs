//! Validation of profile names and extension subcommand names.
use vstd::prelude::*;

verus! {

/// Longest accepted profile name, in code points.
pub const MAX_NAME_LEN: usize = 255;

/// Why a profile name was rejected.
#[derive(Debug, Clone, Copy, PartialEq, Eq, Structural)]
pub enum NameError {
    Empty,
    TooLong,
    Traversal,
    EmptySegment,
    DotSegment,
    InvalidCharacter,
}

impl NameError {
    /// A human-readable description of the rejection.
    pub fn message(&self) -> (r: String) {
        match self {
            NameError::Empty => String::from_str("Profile name cannot be empty"),
            NameError::TooLong => String::from_str("Profile name too long (max 255 characters)"),
            NameError::Traversal => String::from_str(
                "Profile name cannot contain '..' or backslashes",
            ),
            NameError::EmptySegment => String::from_str(
                "Profile name cannot have empty path components",
            ),
            NameError::DotSegment => String::from_str(
                "Profile name cannot contain '.' or '..' path components",
            ),
            NameError::InvalidCharacter => String::from_str(
                "Profile name contains invalid characters",
            ),
        }
    }
}

/// Some position holds `a` immediately followed by `b`.
pub open spec fn has_pair(s: Seq<char>, a: char, b: char) -> bool {
    exists|k: int| 0 <= k && k + 1 < s.len() && #[trigger] s[k] == a && s[k + 1] == b
}

/// Some position holds `a`, `b`, `c` in a row.
pub open spec fn has_triple(s: Seq<char>, a: char, b: char, c: char) -> bool {
    exists|k: int|
        0 <= k && k + 2 < s.len() && #[trigger] s[k] == a && s[k + 1] == b && s[k + 2] == c
}

/// Splitting on `/` yields an empty segment.
pub open spec fn has_empty_segment(s: Seq<char>) -> bool {
    s.len() == 0 || s[0] == '/' || s[s.len() - 1] == '/' || has_pair(s, '/', '/')
}

/// Splitting on `/` yields a segment that is exactly `.`.
pub open spec fn has_dot_segment(s: Seq<char>) -> bool {
    s =~= seq!['.'] || (s.len() >= 2 && s[0] == '.' && s[1] == '/') || (s.len() >= 2 && s[s.len()
        - 2] == '/' && s[s.len() - 1] == '.') || has_triple(s, '/', '.', '/')
}

/// A control character (general category Cc).
pub open spec fn is_control(c: char) -> bool {
    (c as u32) <= 0x1f || (0x7f <= (c as u32) && (c as u32) <= 0x9f)
}

/// A character that a profile name may not hold.
pub open spec fn is_forbidden(c: char) -> bool {
    c == '<' || c == '>' || c == ':' || c == '"' || c == '|' || c == '?' || c == '*' || is_control(
        c,
    )
}

pub open spec fn has_forbidden(s: Seq<char>) -> bool {
    exists|k: int| 0 <= k < s.len() && is_forbidden(#[trigger] s[k])
}

/// A name that reaches outside its directory: `..` anywhere, or a backslash.
pub open spec fn is_traversal(s: Seq<char>) -> bool {
    has_pair(s, '.', '.') || s.contains('\\')
}

/// The rules a profile name must meet, all of them.
pub open spec fn valid_profile_name(s: Seq<char>) -> bool {
    &&& s.len() > 0
    &&& s.len() <= MAX_NAME_LEN
    &&& !is_traversal(s)
    &&& !has_empty_segment(s)
    &&& !has_dot_segment(s)
    &&& !has_forbidden(s)
}

/// A character allowed in an extension subcommand name.
pub open spec fn is_subcommand_char(c: char) -> bool {
    ('a' <= c && c <= 'z') || ('A' <= c && c <= 'Z') || ('0' <= c && c <= '9') || c == '-' || c
        == '_'
}

/// Non-empty, only ASCII letters, digits, `-` and `_`, no `-` at either end
/// and no `--`.
pub open spec fn valid_subcommand_name(s: Seq<char>) -> bool {
    &&& s.len() > 0
    &&& forall|k: int| 0 <= k < s.len() ==> is_subcommand_char(#[trigger] s[k])
    &&& s[0] != '-'
    &&& s[s.len() - 1] != '-'
    &&& !has_pair(s, '-', '-')
}

fn contains_pair(s: &str, a: char, b: char) -> (r: bool)
    ensures
        r == has_pair(s@, a, b),
{
    let n = s.unicode_len();
    let mut i: usize = 0;
    while i < n && i + 1 < n
        invariant
            n == s@.len(),
            forall|k: int| 0 <= k < i && k + 1 < n ==> !(#[trigger] s@[k] == a && s@[k + 1] == b),
        decreases n - i,
    {
        if s.get_char(i) == a && s.get_char(i + 1) == b {
            return true;
        }
        i = i + 1;
    }
    false
}

fn contains_triple(s: &str, a: char, b: char, c: char) -> (r: bool)
    ensures
        r == has_triple(s@, a, b, c),
{
    let n = s.unicode_len();
    let mut i: usize = 0;
    while i < n && i + 1 < n && i + 2 < n
        invariant
            n == s@.len(),
            forall|k: int|
                0 <= k < i && k + 2 < n ==> !(#[trigger] s@[k] == a && s@[k + 1] == b
                    && s@[k + 2] == c),
        decreases n - i,
    {
        if s.get_char(i) == a && s.get_char(i + 1) == b && s.get_char(i + 2) == c {
            return true;
        }
        i = i + 1;
    }
    false
}

fn contains_char(s: &str, c: char) -> (r: bool)
    ensures
        r == s@.contains(c),
{
    let n = s.unicode_len();
    let mut i: usize = 0;
    while i < n
        invariant
            n == s@.len(),
            forall|k: int| 0 <= k < i ==> #[trigger] s@[k] != c,
        decreases n - i,
    {
        if s.get_char(i) == c {
            return true;
        }
        i = i + 1;
    }
    false
}

fn forbidden_char(c: char) -> (r: bool)
    ensures
        r == is_forbidden(c),
{
    let u = c as u32;
    c == '<' || c == '>' || c == ':' || c == '"' || c == '|' || c == '?' || c == '*' || u <= 0x1f
        || (0x7f <= u && u <= 0x9f)
}

fn contains_forbidden(s: &str) -> (r: bool)
    ensures
        r == has_forbidden(s@),
{
    let n = s.unicode_len();
    let mut i: usize = 0;
    while i < n
        invariant
            n == s@.len(),
            forall|k: int| 0 <= k < i ==> !is_forbidden(#[trigger] s@[k]),
        decreases n - i,
    {
        if forbidden_char(s.get_char(i)) {
            return true;
        }
        i = i + 1;
    }
    false
}

/// Checks a profile name. The first rule broken, in the order empty, too
/// long, traversal, empty segment, dot segment, forbidden character, is the
/// error returned.
pub fn validate_profile_name(name: &str) -> (r: Result<(), NameError>)
    ensures
        r is Ok <==> valid_profile_name(name@),
        r == Err::<(), NameError>(NameError::Empty) <==> name@.len() == 0,
        r == Err::<(), NameError>(NameError::TooLong) <==> name@.len() > MAX_NAME_LEN,
        r == Err::<(), NameError>(NameError::Traversal) <==> 0 < name@.len() <= MAX_NAME_LEN
            && is_traversal(name@),
        r == Err::<(), NameError>(NameError::EmptySegment) <==> 0 < name@.len() <= MAX_NAME_LEN
            && !is_traversal(name@) && has_empty_segment(name@),
        r == Err::<(), NameError>(NameError::DotSegment) <==> 0 < name@.len() <= MAX_NAME_LEN
            && !is_traversal(name@) && !has_empty_segment(name@) && has_dot_segment(name@),
        r == Err::<(), NameError>(NameError::InvalidCharacter) <==> 0 < name@.len()
            <= MAX_NAME_LEN && !is_traversal(name@) && !has_empty_segment(name@)
            && !has_dot_segment(name@) && has_forbidden(name@),
{
    let n = name.unicode_len();
    if n == 0 {
        return Err(NameError::Empty);
    }
    if n > MAX_NAME_LEN {
        return Err(NameError::TooLong);
    }
    if contains_pair(name, '.', '.') || contains_char(name, '\\') {
        return Err(NameError::Traversal);
    }
    if name.get_char(0) == '/' || name.get_char(n - 1) == '/' || contains_pair(name, '/', '/') {
        return Err(NameError::EmptySegment);
    }
    let dot_alone = n == 1 && name.get_char(0) == '.';
    let dot_first = n >= 2 && name.get_char(0) == '.' && name.get_char(1) == '/';
    let dot_last = n >= 2 && name.get_char(n - 2) == '/' && name.get_char(n - 1) == '.';
    if dot_alone || dot_first || dot_last || contains_triple(name, '/', '.', '/') {
        proof {
            if dot_alone {
                assert(name@ =~= seq!['.']);
            }
        }
        return Err(NameError::DotSegment);
    }
    proof {
        if name@ =~= seq!['.'] {
            assert(name@[0] == '.');
        }
    }
    if contains_forbidden(name) {
        return Err(NameError::InvalidCharacter);
    }
    Ok(())
}

fn subcommand_char(c: char) -> (r: bool)
    ensures
        r == is_subcommand_char(c),
{
    ('a' <= c && c <= 'z') || ('A' <= c && c <= 'Z') || ('0' <= c && c <= '9') || c == '-' || c
        == '_'
}

/// Whether `name` may name an extension subcommand.
pub fn is_valid_subcommand_name(name: &str) -> (r: bool)
    ensures
        r == valid_subcommand_name(name@),
{
    let n = name.unicode_len();
    if n == 0 {
        return false;
    }
    let mut i: usize = 0;
    while i < n
        invariant
            n == name@.len(),
            forall|k: int| 0 <= k < i ==> is_subcommand_char(#[trigger] name@[k]),
        decreases n - i,
    {
        if !subcommand_char(name.get_char(i)) {
            return false;
        }
        i = i + 1;
    }
    name.get_char(0) != '-' && name.get_char(n - 1) != '-' && !contains_pair(name, '-', '-')
}

/// A name that holds `..`, an empty segment, or more than the maximum number
/// of code points is never a valid profile name; a subcommand name that
/// starts or ends with `-` is never a valid subcommand name.
pub proof fn lemma_unsafe_names_rejected(s: Seq<char>)
    ensures
        has_pair(s, '.', '.') ==> !valid_profile_name(s),
        has_empty_segment(s) ==> !valid_profile_name(s),
        s.len() > MAX_NAME_LEN ==> !valid_profile_name(s),
        s.len() > 0 && (s[0] == '-' || s[s.len() - 1] == '-') ==> !valid_subcommand_name(s),
{
}

} // verus!
