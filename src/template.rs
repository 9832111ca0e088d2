//! The placeholder grammar: `<{{IDENTIFIER}}>` with `IDENTIFIER` matching
//! `[A-Za-z_][A-Za-z0-9_]*`, its extraction and its substitution.
use vstd::prelude::*;

verus! {

pub open spec fn is_ident_start(c: char) -> bool {
    ('A' <= c && c <= 'Z') || ('a' <= c && c <= 'z') || c == '_'
}

pub open spec fn is_ident_char(c: char) -> bool {
    is_ident_start(c) || ('0' <= c && c <= '9')
}

/// Length of the run of identifier characters that starts at `k`.
pub open spec fn ident_run(s: Seq<char>, k: int) -> nat
    decreases s.len() - k,
{
    if 0 <= k < s.len() && is_ident_char(s[k]) {
        1 + ident_run(s, k + 1)
    } else {
        0
    }
}

/// Index just past the placeholder that starts at `i`.
pub open spec fn placeholder_end(s: Seq<char>, i: int) -> int {
    i + 6 + ident_run(s, i + 3)
}

/// A placeholder `<{{IDENTIFIER}}>` starts at `i`.
pub open spec fn placeholder_at(s: Seq<char>, i: int) -> bool {
    let n = ident_run(s, i + 3);
    &&& 0 <= i
    &&& i + 6 + n <= s.len()
    &&& s[i] == '<'
    &&& s[i + 1] == '{'
    &&& s[i + 2] == '{'
    &&& is_ident_start(s[i + 3])
    &&& s[i + 3 + n] == '}'
    &&& s[i + 4 + n] == '}'
    &&& s[i + 5 + n] == '>'
}

/// The identifier of the placeholder that starts at `i`.
pub open spec fn placeholder_name(s: Seq<char>, i: int) -> Seq<char> {
    s.subrange(i + 3, i + 3 + ident_run(s, i + 3))
}

/// Identifiers of the placeholders that start before `k`, in order, with
/// repetitions.
pub open spec fn names_before(s: Seq<char>, k: int) -> Seq<Seq<char>>
    decreases k,
{
    if k <= 0 {
        seq![]
    } else if placeholder_at(s, k - 1) {
        names_before(s, k - 1).push(placeholder_name(s, k - 1))
    } else {
        names_before(s, k - 1)
    }
}

/// The first occurrence of each distinct element, in order.
pub open spec fn dedup(xs: Seq<Seq<char>>) -> Seq<Seq<char>>
    decreases xs.len(),
{
    if xs.len() == 0 {
        seq![]
    } else {
        let p = dedup(xs.drop_last());
        if p.contains(xs.last()) {
            p
        } else {
            p.push(xs.last())
        }
    }
}

/// The distinct placeholder identifiers of `s`, in order of first occurrence.
pub open spec fn placeholders(s: Seq<char>) -> Seq<Seq<char>> {
    dedup(names_before(s, s.len() as int))
}

/// The value of the first binding for `name`.
pub open spec fn lookup(bs: Seq<(Seq<char>, Seq<char>)>, name: Seq<char>) -> Option<Seq<char>>
    decreases bs.len(),
{
    if bs.len() == 0 {
        None
    } else if bs[0].0 == name {
        Some(bs[0].1)
    } else {
        lookup(bs.drop_first(), name)
    }
}

pub open spec fn bindings_view(bs: Seq<(String, String)>) -> Seq<(Seq<char>, Seq<char>)> {
    bs.map_values(|p: (String, String)| (p.0@, p.1@))
}

/// `s` from index `i` on, each placeholder with a binding replaced by its
/// value, in one left-to-right pass; unbound placeholders stay as they are.
pub open spec fn substituted_from(s: Seq<char>, bs: Seq<(Seq<char>, Seq<char>)>, i: int) -> Seq<
    char,
>
    decreases s.len() - i,
{
    if i < 0 || i >= s.len() {
        seq![]
    } else if placeholder_at(s, i) {
        let piece = match lookup(bs, placeholder_name(s, i)) {
            Some(v) => v,
            None => s.subrange(i, placeholder_end(s, i)),
        };
        piece + substituted_from(s, bs, placeholder_end(s, i))
    } else {
        seq![s[i]] + substituted_from(s, bs, i + 1)
    }
}

pub open spec fn substituted(s: Seq<char>, bs: Seq<(Seq<char>, Seq<char>)>) -> Seq<char> {
    substituted_from(s, bs, 0)
}

fn ident_start(c: char) -> (r: bool)
    ensures
        r == is_ident_start(c),
{
    ('A' <= c && c <= 'Z') || ('a' <= c && c <= 'z') || c == '_'
}

fn ident_char(c: char) -> (r: bool)
    ensures
        r == is_ident_char(c),
{
    ident_start(c) || ('0' <= c && c <= '9')
}

fn ident_end(s: &str, n: usize, start: usize) -> (k: usize)
    requires
        n == s@.len(),
        start <= n,
    ensures
        k == start + ident_run(s@, start as int),
        k <= n,
{
    let mut k = start;
    while k < n && ident_char(s.get_char(k))
        invariant
            n == s@.len(),
            start <= k <= n,
            start + ident_run(s@, start as int) == k + ident_run(s@, k as int),
        decreases n - k,
    {
        k = k + 1;
    }
    k
}

/// Where the placeholder starting at `i` ends, if one starts there.
fn placeholder_end_at(s: &str, n: usize, i: usize) -> (r: Option<usize>)
    requires
        n == s@.len(),
        i < n,
    ensures
        match r {
            Some(e) => placeholder_at(s@, i as int) && e == placeholder_end(s@, i as int),
            None => !placeholder_at(s@, i as int),
        },
{
    if n - i < 7 {
        return None;
    }
    if s.get_char(i) != '<' || s.get_char(i + 1) != '{' || s.get_char(i + 2) != '{' {
        return None;
    }
    if !ident_start(s.get_char(i + 3)) {
        return None;
    }
    let k = ident_end(s, n, i + 3);
    if n - k < 3 {
        return None;
    }
    if s.get_char(k) == '}' && s.get_char(k + 1) == '}' && s.get_char(k + 2) == '>' {
        Some(k + 3)
    } else {
        None
    }
}

/// Whether two strings hold the same characters.
pub fn same_text(a: &str, b: &str) -> (r: bool)
    ensures
        r == (a@ == b@),
{
    let n = a.unicode_len();
    if n != b.unicode_len() {
        return false;
    }
    let mut i: usize = 0;
    while i < n
        invariant
            n == a@.len(),
            n == b@.len(),
            forall|k: int| 0 <= k < i ==> a@[k] == b@[k],
        decreases n - i,
    {
        if a.get_char(i) != b.get_char(i) {
            return false;
        }
        i = i + 1;
    }
    assert(a@ =~= b@);
    true
}

/// The character sequences of a sequence of strings.
pub open spec fn texts(v: Seq<String>) -> Seq<Seq<char>> {
    v.map_values(|y: String| y@)
}

/// Whether `v` holds a string equal to `x`.
pub fn contains_text(v: &Vec<String>, x: &str) -> (r: bool)
    ensures
        r == texts(v@).contains(x@),
{
    let ghost vs = texts(v@);
    let mut i: usize = 0;
    while i < v.len()
        invariant
            vs == texts(v@),
            i <= v.len(),
            forall|k: int| 0 <= k < i ==> vs[k] != x@,
        decreases v.len() - i,
    {
        if same_text(v[i].as_str(), x) {
            assert(vs[i as int] == x@);
            assert(vs.contains(x@));
            return true;
        }
        i = i + 1;
    }
    false
}

/// The distinct placeholder identifiers of `content`, in order of first
/// occurrence.
pub fn extract_placeholders(content: &str) -> (r: Vec<String>)
    ensures
        texts(r@) == placeholders(content@),
{
    let n = content.unicode_len();
    let mut out: Vec<String> = Vec::new();
    let mut i: usize = 0;
    while i < n
        invariant
            n == content@.len(),
            i <= n,
            texts(out@) == dedup(names_before(content@, i as int)),
        decreases n - i,
    {
        let ghost before = names_before(content@, i as int);
        match placeholder_end_at(content, n, i) {
            Some(end) => {
                let name = content.substring_char(i + 3, end - 3);
                let ghost next = names_before(content@, i + 1);
                assert(next == before.push(name@));
                assert(next.drop_last() =~= before);
                if !contains_text(&out, name) {
                    out.push(String::from_str(name));
                    assert(texts(out@) =~= dedup(before).push(name@));
                }
            },
            None => {},
        }
        i = i + 1;
    }
    out
}

fn lookup_binding<'a>(bindings: &'a Vec<(String, String)>, name: &str) -> (r: Option<
    &'a String,
>)
    ensures
        match r {
            Some(v) => lookup(bindings_view(bindings@), name@) == Some(v@),
            None => lookup(bindings_view(bindings@), name@) is None,
        },
{
    let ghost bv = bindings_view(bindings@);
    assert(bv.subrange(0, bv.len() as int) =~= bv);
    let mut i: usize = 0;
    while i < bindings.len()
        invariant
            bv == bindings_view(bindings@),
            i <= bindings.len(),
            lookup(bv, name@) == lookup(bv.subrange(i as int, bv.len() as int), name@),
        decreases bindings.len() - i,
    {
        let ghost rest = bv.subrange(i as int, bv.len() as int);
        assert(rest.drop_first() =~= bv.subrange(i + 1, bv.len() as int));
        assert(rest[0] == bv[i as int]);
        if same_text(bindings[i].0.as_str(), name) {
            return Some(&bindings[i].1);
        }
        i = i + 1;
    }
    None
}

/// Replaces each placeholder of `content` whose identifier has a binding
/// with that binding's value; the text that comes in is not scanned again.
pub fn substitute(content: &str, bindings: &Vec<(String, String)>) -> (r: String)
    ensures
        r@ == substituted(content@, bindings_view(bindings@)),
{
    let ghost bv = bindings_view(bindings@);
    let n = content.unicode_len();
    let mut out = String::new();
    let mut i: usize = 0;
    while i < n
        invariant
            n == content@.len(),
            i <= n,
            bv == bindings_view(bindings@),
            out@ + substituted_from(content@, bv, i as int) == substituted(content@, bv),
        decreases n - i,
    {
        let ghost rest = substituted_from(content@, bv, i as int);
        match placeholder_end_at(content, n, i) {
            Some(end) => {
                let name = content.substring_char(i + 3, end - 3);
                let ghost old_out = out@;
                match lookup_binding(bindings, name) {
                    Some(v) => out.append(v.as_str()),
                    None => out.append(content.substring_char(i, end)),
                }
                assert(out@ + substituted_from(content@, bv, end as int) =~= old_out + rest);
                i = end;
            },
            None => {
                let one = content.substring_char(i, i + 1);
                let ghost old_out = out@;
                assert(one@ =~= seq![content@[i as int]]);
                out.append(one);
                assert(out@ + substituted_from(content@, bv, i + 1) =~= old_out + rest);
                i = i + 1;
            },
        }
    }
    out
}

proof fn lemma_unbound_from(s: Seq<char>, bs: Seq<(Seq<char>, Seq<char>)>, i: int)
    requires
        0 <= i <= s.len(),
        forall|j: int|
            i <= j < s.len() && #[trigger] placeholder_at(s, j) ==> lookup(
                bs,
                placeholder_name(s, j),
            ) is None,
    ensures
        substituted_from(s, bs, i) == s.subrange(i, s.len() as int),
    decreases s.len() - i,
{
    if i < s.len() {
        if placeholder_at(s, i) {
            let end = placeholder_end(s, i);
            lemma_unbound_from(s, bs, end);
            assert(s.subrange(i, end) + s.subrange(end, s.len() as int) =~= s.subrange(
                i,
                s.len() as int,
            ));
        } else {
            lemma_unbound_from(s, bs, i + 1);
            assert(seq![s[i]] + s.subrange(i + 1, s.len() as int) =~= s.subrange(
                i,
                s.len() as int,
            ));
        }
    } else {
        assert(s.subrange(i, i) =~= Seq::<char>::empty());
    }
}

/// Content in which no placeholder has a binding comes out of substitution
/// unchanged.
pub proof fn lemma_substitute_unbound(s: Seq<char>, bs: Seq<(Seq<char>, Seq<char>)>)
    requires
        forall|j: int| #[trigger]
            placeholder_at(s, j) ==> lookup(bs, placeholder_name(s, j)) is None,
    ensures
        substituted(s, bs) == s,
{
    lemma_unbound_from(s, bs, 0);
    assert(s.subrange(0, s.len() as int) =~= s);
}

/// With no bindings, substitution returns the content unchanged.
pub proof fn lemma_substitute_no_bindings(s: Seq<char>)
    ensures
        substituted(s, seq![]) == s,
{
    lemma_substitute_unbound(s, seq![]);
}

/// Substituting a second time with the same bindings changes nothing, when
/// no placeholder left in the first result has a binding.
pub proof fn lemma_substitute_idempotent(s: Seq<char>, bs: Seq<(Seq<char>, Seq<char>)>)
    requires
        forall|j: int| #[trigger]
            placeholder_at(substituted(s, bs), j) ==> lookup(
                bs,
                placeholder_name(substituted(s, bs), j),
            ) is None,
    ensures
        substituted(substituted(s, bs), bs) == substituted(s, bs),
{
    lemma_substitute_unbound(substituted(s, bs), bs);
}

} // verus!
