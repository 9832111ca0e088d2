//! Text shown to or read back from the user: the template of a new profile,
//! the test for a profile left without content, and the tree listing.
use vstd::prelude::*;
use crate::storage::{insertion_point, lex_le, sorted};
use crate::template::texts;

verus! {

/// `# NAME`, a blank line, and a comment inviting content.
pub open spec fn template_text(name: Seq<char>) -> Seq<char> {
    "# "@ + name + "\n\n<!-- Add your profile content here -->\n"@
}

/// The initial content of a new profile called `name`.
pub fn new_profile_template(name: &str) -> (r: String)
    ensures
        r@ == template_text(name@),
{
    proof {
        reveal_strlit("# ");
        reveal_strlit("\n\n<!-- Add your profile content here -->\n");
    }
    let mut r = String::from_str("# ");
    r.append(name);
    r.append("\n\n<!-- Add your profile content here -->\n");
    r
}

/// A white space character (the Unicode `White_Space` property).
pub open spec fn is_white_space(c: char) -> bool {
    let u = c as u32;
    (0x09 <= u && u <= 0x0d) || u == 0x20 || u == 0x85 || u == 0xa0 || u == 0x1680 || (0x2000 <= u
        && u <= 0x200a) || u == 0x2028 || u == 0x2029 || u == 0x202f || u == 0x205f || u == 0x3000
}

/// `<!--` starts at `i`.
pub open spec fn comment_at(s: Seq<char>, i: int) -> bool {
    0 <= i && i + 4 <= s.len() && s.subrange(i, i + 4) == seq!['<', '!', '-', '-']
}

/// Reading `s` from `i` on, every line's first character other than white
/// space is `#` or opens a `<!--` comment; `fresh` says that no such
/// character has been met yet on the line that holds `i`.
pub open spec fn blank_from(s: Seq<char>, i: int, fresh: bool) -> bool
    decreases s.len() - i,
{
    if i < 0 || i >= s.len() {
        true
    } else if s[i] == '\n' {
        blank_from(s, i + 1, true)
    } else if is_white_space(s[i]) {
        blank_from(s, i + 1, fresh)
    } else if fresh {
        (s[i] == '#' || comment_at(s, i)) && blank_from(s, i + 1, false)
    } else {
        blank_from(s, i + 1, false)
    }
}

/// Content with nothing in it but white space, headings and comments: each
/// line, trimmed, is empty, starts with `#` or starts with `<!--`.
pub open spec fn is_blank(s: Seq<char>) -> bool {
    blank_from(s, 0, true)
}

fn white_space(c: char) -> (r: bool)
    ensures
        r == is_white_space(c),
{
    let u = c as u32;
    (0x09 <= u && u <= 0x0d) || u == 0x20 || u == 0x85 || u == 0xa0 || u == 0x1680 || (0x2000 <= u
        && u <= 0x200a) || u == 0x2028 || u == 0x2029 || u == 0x202f || u == 0x205f || u == 0x3000
}

/// Whether profile content returned from the editor holds nothing worth
/// keeping; the unchanged template is such content.
pub fn is_blank_profile(content: &str) -> (r: bool)
    ensures
        r == is_blank(content@),
{
    let n = content.unicode_len();
    let mut fresh = true;
    let mut i: usize = 0;
    while i < n
        invariant
            n == content@.len(),
            i <= n,
            is_blank(content@) == blank_from(content@, i as int, fresh),
        decreases n - i,
    {
        let c = content.get_char(i);
        if c == '\n' {
            fresh = true;
        } else if white_space(c) {
        } else if fresh {
            let comment = n - i >= 4 && content.get_char(i + 1) == '!' && content.get_char(i + 2)
                == '-' && content.get_char(i + 3) == '-' && c == '<';
            proof {
                if n - i >= 4 {
                    let sub = content@.subrange(i as int, i + 4);
                    if comment {
                        assert(sub =~= seq!['<', '!', '-', '-']);
                    } else if sub == seq!['<', '!', '-', '-'] {
                        assert(sub[0] == content@[i as int]);
                        assert(sub[1] == content@[i + 1]);
                        assert(sub[2] == content@[i + 2]);
                        assert(sub[3] == content@[i + 3]);
                    }
                }
            }
            if c != '#' && !comment {
                return false;
            }
            fresh = false;
        }
        i = i + 1;
    }
    true
}

/// Index of the first `/` of `p` at or after `k`; the length if none.
pub open spec fn first_slash(p: Seq<char>, k: int) -> int
    decreases p.len() - k,
{
    if k < 0 || k >= p.len() {
        p.len() as int
    } else if p[k] == '/' {
        k
    } else {
        first_slash(p, k + 1)
    }
}

/// The directory a profile is listed under: the part before its first
/// `/`, or empty for a profile at the top.
pub open spec fn group_of(p: Seq<char>) -> Seq<char> {
    if first_slash(p, 0) < p.len() {
        p.subrange(0, first_slash(p, 0))
    } else {
        seq![]
    }
}

/// What is listed for a profile inside its directory: the part after its
/// first `/`, or the whole name.
pub open spec fn leaf_of(p: Seq<char>) -> Seq<char> {
    if first_slash(p, 0) < p.len() {
        p.subrange(first_slash(p, 0) + 1, p.len() as int)
    } else {
        p
    }
}

/// The leaves of the first `k` profiles listed under `key`, in order.
pub open spec fn leaves_in(ps: Seq<Seq<char>>, key: Seq<char>, k: int) -> Seq<Seq<char>>
    decreases k,
{
    if k <= 0 {
        seq![]
    } else if group_of(ps[k - 1]) == key {
        leaves_in(ps, key, k - 1).push(leaf_of(ps[k - 1]))
    } else {
        leaves_in(ps, key, k - 1)
    }
}

pub open spec fn distinct(s: Seq<Seq<char>>) -> bool {
    forall|a: int, b: int| 0 <= a < b < s.len() ==> #[trigger] s[a] != #[trigger] s[b]
}

/// Some profile among the first `k` is listed under `x`.
pub open spec fn is_group_before(ps: Seq<Seq<char>>, x: Seq<char>, k: int) -> bool {
    exists|m: int| 0 <= m < k && #[trigger] group_of(ps[m]) == x
}

/// `keys` are the directories of `ps`, each once, in lexicographic order.
pub open spec fn groups_of(ps: Seq<Seq<char>>, keys: Seq<Seq<char>>) -> bool {
    &&& sorted(keys)
    &&& distinct(keys)
    &&& forall|m: int| 0 <= m < ps.len() ==> keys.contains(#[trigger] group_of(ps[m]))
    &&& forall|g: int| 0 <= g < keys.len() ==> is_group_before(ps, #[trigger] keys[g], ps.len() as int)
}

/// The branch drawn before an entry: the last entry of a level closes it.
pub open spec fn branch(last: bool) -> Seq<char> {
    if last {
        "\u{2514}\u{2500}\u{2500} "@
    } else {
        "\u{251c}\u{2500}\u{2500} "@
    }
}

/// The indentation of an entry inside a directory: a rule continues while
/// more directories follow.
pub open spec fn indent(last_dir: bool) -> Seq<char> {
    if last_dir {
        "    "@
    } else {
        "\u{2502}   "@
    }
}

/// The line of one leaf. Top-level leaves close the tree only when they are
/// the last leaves of the last group.
pub open spec fn leaf_line(root: bool, last_dir: bool, last_leaf: bool, leaf: Seq<char>) -> Seq<char> {
    if root {
        branch(last_leaf && last_dir) + leaf
    } else {
        indent(last_dir) + branch(last_leaf) + leaf
    }
}

/// The lines of one group: a `dir/` header unless it is the top level,
/// then one line per leaf.
pub open spec fn group_lines(key: Seq<char>, leaves: Seq<Seq<char>>, last_dir: bool) -> Seq<Seq<char>> {
    let header: Seq<Seq<char>> = if key.len() == 0 {
        seq![]
    } else {
        seq![branch(last_dir) + key + "/"@]
    };
    header + Seq::new(
        leaves.len(),
        |j: int| leaf_line(key.len() == 0, last_dir, j == leaves.len() - 1, leaves[j]),
    )
}

/// The lines of the first `g` groups.
pub open spec fn tree_of(ps: Seq<Seq<char>>, keys: Seq<Seq<char>>, g: int) -> Seq<Seq<char>>
    decreases g,
{
    if g <= 0 {
        seq![]
    } else {
        tree_of(ps, keys, g - 1) + group_lines(
            keys[g - 1],
            leaves_in(ps, keys[g - 1], ps.len() as int),
            g == keys.len(),
        )
    }
}

fn split_profile(p: &str) -> (r: (String, String))
    ensures
        r.0@ == group_of(p@),
        r.1@ == leaf_of(p@),
{
    let n = p.unicode_len();
    let mut k: usize = 0;
    while k < n && p.get_char(k) != '/'
        invariant
            n == p@.len(),
            k <= n,
            first_slash(p@, 0) == first_slash(p@, k as int),
        decreases n - k,
    {
        k = k + 1;
    }
    if k < n {
        (String::from_str(p.substring_char(0, k)), String::from_str(p.substring_char(k + 1, n)))
    } else {
        (String::new(), String::from_str(p))
    }
}

fn find_text(v: &Vec<String>, x: &str) -> (r: Option<usize>)
    ensures
        match r {
            Some(j) => j < v@.len() && texts(v@)[j as int] == x@,
            None => !texts(v@).contains(x@),
        },
{
    let ghost vs = texts(v@);
    let mut i: usize = 0;
    while i < v.len()
        invariant
            vs == texts(v@),
            i <= v@.len(),
            forall|k: int| 0 <= k < i ==> vs[k] != x@,
        decreases v.len() - i,
    {
        if crate::template::same_text(v[i].as_str(), x) {
            return Some(i);
        }
        i = i + 1;
    }
    None
}

proof fn lemma_leaves_absent(ps: Seq<Seq<char>>, key: Seq<char>, k: int)
    requires
        0 <= k <= ps.len(),
        forall|m: int| 0 <= m < k ==> #[trigger] group_of(ps[m]) != key,
    ensures
        leaves_in(ps, key, k) == Seq::<Seq<char>>::empty(),
    decreases k,
{
    if k > 0 {
        lemma_leaves_absent(ps, key, k - 1);
    }
}

/// The directories of `profiles` in order, and the leaves under each.
fn group_profiles(profiles: &Vec<String>) -> (r: (Vec<String>, Vec<Vec<String>>))
    ensures
        groups_of(texts(profiles@), texts(r.0@)),
        r.1@.len() == r.0@.len(),
        forall|g: int|
            0 <= g < r.0@.len() ==> texts(#[trigger] r.1@[g]@) == leaves_in(
                texts(profiles@),
                texts(r.0@)[g],
                profiles@.len() as int,
            ),
{
    let ghost ps = texts(profiles@);
    let mut keys: Vec<String> = Vec::new();
    let mut groups: Vec<Vec<String>> = Vec::new();
    let mut i: usize = 0;
    while i < profiles.len()
        invariant
            ps == texts(profiles@),
            i <= profiles@.len(),
            groups@.len() == keys@.len(),
            sorted(texts(keys@)),
            distinct(texts(keys@)),
            forall|m: int| 0 <= m < i ==> texts(keys@).contains(#[trigger] group_of(ps[m])),
            forall|g: int|
                0 <= g < keys@.len() ==> is_group_before(ps, #[trigger] texts(keys@)[g], i as int),
            forall|g: int|
                0 <= g < keys@.len() ==> texts(#[trigger] groups@[g]@) == leaves_in(
                    ps,
                    texts(keys@)[g],
                    i as int,
                ),
        decreases profiles.len() - i,
    {
        let (key, leaf) = split_profile(profiles[i].as_str());
        assert(ps[i as int] == profiles@[i as int]@);
        let ghost kv = key@;
        let ghost old_keys = texts(keys@);
        let ghost old_groups = groups@;
        match find_text(&keys, key.as_str()) {
            Some(j) => {
                let mut g = groups.remove(j);
                let ghost old_g = g@;
                g.push(leaf);
                groups.insert(j, g);
                proof {
                    assert(texts(g@) =~= texts(old_g).push(leaf@));
                    assert forall|m: int| 0 <= m < i + 1 implies texts(keys@).contains(
                        #[trigger] group_of(ps[m]),
                    ) by {
                        if m == i {
                            assert(texts(keys@)[j as int] == kv);
                        }
                    }
                    assert forall|g2: int| 0 <= g2 < keys@.len() implies is_group_before(
                        ps,
                        #[trigger] texts(keys@)[g2],
                        i + 1,
                    ) by {
                        assert(is_group_before(ps, texts(keys@)[g2], i as int));
                    }
                    assert forall|g2: int| 0 <= g2 < keys@.len() implies texts(
                        #[trigger] groups@[g2]@,
                    ) == leaves_in(ps, texts(keys@)[g2], i + 1) by {
                        if g2 == j {
                            assert(groups@[g2] == g);
                        } else {
                            assert(groups@[g2] == old_groups[g2]);
                            assert(old_keys[g2] != old_keys[j as int]);
                        }
                    }
                }
            },
            None => {
                let p = insertion_point(&keys, key.as_str());
                keys.insert(p, key);
                let mut g: Vec<String> = Vec::new();
                g.push(leaf);
                groups.insert(p, g);
                proof {
                    let nk = texts(keys@);
                    assert(nk =~= old_keys.insert(p as int, kv));
                    assert forall|m: int| 0 <= m < i implies #[trigger] group_of(ps[m]) != kv by {
                        assert(old_keys.contains(group_of(ps[m])));
                    }
                    lemma_leaves_absent(ps, kv, i as int);
                    assert(texts(g@) =~= seq![leaf@]);
                    assert forall|a: int, b: int| 0 <= a < b < nk.len() implies lex_le(
                        #[trigger] nk[a],
                        #[trigger] nk[b],
                    ) && nk[a] != nk[b] by {
                        if b < p {
                            assert(nk[a] == old_keys[a] && nk[b] == old_keys[b]);
                        } else if b == p {
                            assert(nk[a] == old_keys[a]);
                            assert(old_keys.contains(nk[a]));
                        } else if a == p {
                            assert(nk[b] == old_keys[b - 1]);
                            assert(old_keys.contains(nk[b]));
                        } else if a < p {
                            assert(nk[a] == old_keys[a] && nk[b] == old_keys[b - 1]);
                        } else {
                            assert(nk[a] == old_keys[a - 1] && nk[b] == old_keys[b - 1]);
                        }
                    }
                    assert forall|m: int| 0 <= m < i + 1 implies nk.contains(
                        #[trigger] group_of(ps[m]),
                    ) by {
                        if m == i {
                            assert(nk[p as int] == kv);
                        } else {
                            let x = group_of(ps[m]);
                            assert(old_keys.contains(x));
                            let q = choose|q: int| 0 <= q < old_keys.len() && old_keys[q] == x;
                            if q < p {
                                assert(nk[q] == x);
                            } else {
                                assert(nk[q + 1] == x);
                            }
                        }
                    }
                    assert forall|g2: int| 0 <= g2 < nk.len() implies is_group_before(
                        ps,
                        #[trigger] nk[g2],
                        i + 1,
                    ) by {
                        if g2 == p {
                            assert(group_of(ps[i as int]) == nk[g2]);
                        } else if g2 < p {
                            assert(nk[g2] == old_keys[g2]);
                            assert(is_group_before(ps, old_keys[g2], i as int));
                        } else {
                            assert(nk[g2] == old_keys[g2 - 1]);
                            assert(is_group_before(ps, old_keys[g2 - 1], i as int));
                        }
                    }
                    assert forall|g2: int| 0 <= g2 < nk.len() implies texts(
                        #[trigger] groups@[g2]@,
                    ) == leaves_in(ps, nk[g2], i + 1) by {
                        if g2 == p {
                            assert(groups@[g2] == g);
                        } else if g2 < p {
                            assert(groups@[g2] == old_groups[g2]);
                            assert(nk[g2] == old_keys[g2]);
                            assert(old_keys.contains(nk[g2]));
                        } else {
                            assert(groups@[g2] == old_groups[g2 - 1]);
                            assert(nk[g2] == old_keys[g2 - 1]);
                            assert(old_keys.contains(nk[g2]));
                        }
                    }
                }
            },
        }
        i = i + 1;
    }
    assert(ps.len() == profiles@.len());
    (keys, groups)
}

fn branch_text(last: bool) -> (r: &'static str)
    ensures
        r@ == branch(last),
{
    proof {
        reveal_strlit("\u{2514}\u{2500}\u{2500} ");
        reveal_strlit("\u{251c}\u{2500}\u{2500} ");
    }
    if last {
        "\u{2514}\u{2500}\u{2500} "
    } else {
        "\u{251c}\u{2500}\u{2500} "
    }
}

fn indent_text(last_dir: bool) -> (r: &'static str)
    ensures
        r@ == indent(last_dir),
{
    proof {
        reveal_strlit("    ");
        reveal_strlit("\u{2502}   ");
    }
    if last_dir {
        "    "
    } else {
        "\u{2502}   "
    }
}

/// The profile names drawn as a tree: top-level profiles first, then each
/// directory (by its first segment, in lexicographic order) with the rest
/// of each name under it, in the order given.
pub fn tree_lines(profiles: &Vec<String>) -> (r: Vec<String>)
    ensures
        exists|keys: Seq<Seq<char>>|
            groups_of(texts(profiles@), keys) && texts(r@) == tree_of(
                texts(profiles@),
                keys,
                keys.len() as int,
            ),
{
    let ghost ps = texts(profiles@);
    let (keys, groups) = group_profiles(profiles);
    let ghost ks = texts(keys@);
    let mut out: Vec<String> = Vec::new();
    let mut g: usize = 0;
    assert(texts(out@) =~= tree_of(ps, ks, 0));
    while g < keys.len()
        invariant
            ps == texts(profiles@),
            ks == texts(keys@),
            groups_of(ps, ks),
            groups@.len() == keys@.len(),
            g <= keys@.len(),
            forall|x: int|
                0 <= x < keys@.len() ==> texts(#[trigger] groups@[x]@) == leaves_in(
                    ps,
                    ks[x],
                    ps.len() as int,
                ),
            texts(out@) == tree_of(ps, ks, g as int),
        decreases keys.len() - g,
    {
        let key = keys[g].as_str();
        assert(ks[g as int] == key@);
        let last_dir = g + 1 == keys.len();
        let root = key.unicode_len() == 0;
        let files = &groups[g];
        let ghost leaves = leaves_in(ps, ks[g as int], ps.len() as int);
        assert(texts(files@) == leaves);
        let ghost start = texts(out@);
        let ghost header: Seq<Seq<char>> = if root {
            seq![]
        } else {
            seq![branch(last_dir) + key@ + "/"@]
        };
        if !root {
            let mut h = String::from_str(branch_text(last_dir));
            h.append(key);
            proof {
                reveal_strlit("/");
            }
            h.append("/");
            out.push(h);
        }
        assert(texts(out@) =~= start + header);
        let mut j: usize = 0;
        while j < files.len()
            invariant
                texts(files@) == leaves,
                j <= files@.len(),
                root == (key@.len() == 0),
                texts(out@) == start + header + Seq::new(
                    j as nat,
                    |t: int| leaf_line(key@.len() == 0, last_dir, t == leaves.len() - 1, leaves[t]),
                ),
            decreases files.len() - j,
        {
            let last_leaf = j + 1 == files.len();
            let mut l = if root {
                String::from_str(branch_text(last_leaf && last_dir))
            } else {
                let mut x = String::from_str(indent_text(last_dir));
                x.append(branch_text(last_leaf));
                x
            };
            assert(leaves[j as int] == files@[j as int]@);
            l.append(files[j].as_str());
            let ghost before = texts(out@);
            out.push(l);
            assert(texts(out@) =~= before.push(l@));
            assert(texts(out@) =~= start + header + Seq::new(
                (j + 1) as nat,
                |t: int| leaf_line(key@.len() == 0, last_dir, t == leaves.len() - 1, leaves[t]),
            ));
            j = j + 1;
        }
        assert(texts(out@) =~= start + group_lines(ks[g as int], leaves, last_dir));
        g = g + 1;
    }
    out
}

} // verus!
