//! Path strings: joining, file names and extensions, and the normalised
//! relative paths under which source and translated files are compared.
use vstd::prelude::*;

use crate::text::{
    chars_of, concat, join, join_seq, matches_at, occurs_at, owned, replace_char, replace_char_seq,
    split_acc, split_char, split_of, starts_with_seq, string_of_range, views,
};

verus! {

// ---------------------------------------------------------------------------
// Joining
// ---------------------------------------------------------------------------

/// `base` joined with `rel` as `Path::join` joins them on the platform the
/// program is built for (separator, absolute and prefixed paths).
pub uninterp spec fn join_path_seq(base: Seq<char>, rel: Seq<char>) -> Seq<char>;

/// Joins two paths (`Path::join`); the join of two `&str` paths is valid
/// UTF-8.
#[verifier::external_body]
pub(crate) fn join_path(base: &str, rel: &str) -> (res: String)
    ensures
        res@ == join_path_seq(base@, rel@),
{
    std::path::Path::new(base).join(rel).to_string_lossy().into_owned()
}

// ---------------------------------------------------------------------------
// File names and extensions
// ---------------------------------------------------------------------------

/// The last component of a path as `Path::file_name` computes it (`None`
/// when the path ends in `..` or has no components).
pub uninterp spec fn file_name_component(path: Seq<char>) -> Option<Seq<char>>;

/// The character view of an optional string.
pub open spec fn opt_chars(o: Option<String>) -> Option<Seq<char>> {
    match o {
        Some(s) => Some(s@),
        None => None,
    }
}

/// The final component of a path (`Path::file_name`); the name of a path
/// that is itself a `&str` is always valid UTF-8.
#[verifier::external_body]
pub(crate) fn file_name(path: &str) -> (res: Option<String>)
    ensures
        opt_chars(res) == file_name_component(path@),
{
    std::path::Path::new(path).file_name().and_then(|name| name.to_str()).map(|name| name.to_string())
}

/// The path without its final component (`Path::parent`): `None` when the
/// path ends in a root or is empty.
pub uninterp spec fn parent_component(path: Seq<char>) -> Option<Seq<char>>;

/// The path without its final component (`Path::parent`); the parent of a
/// path that is itself a `&str` is valid UTF-8.
#[verifier::external_body]
pub(crate) fn parent_of(path: &str) -> (res: Option<String>)
    ensures
        opt_chars(res) == parent_component(path@),
{
    std::path::Path::new(path).parent().and_then(|p| p.to_str()).map(|p| p.to_string())
}

/// The part of `path` below `base`, compared component by component
/// (`Path::strip_prefix`): `None` when `base` is not a prefix of `path`.
pub uninterp spec fn strip_prefix_components(path: Seq<char>, base: Seq<char>) -> Option<Seq<char>>;

/// The part of `path` below `base` (`Path::strip_prefix`); a part of a
/// `&str` is valid UTF-8.
#[verifier::external_body]
pub(crate) fn strip_path_prefix(path: &str, base: &str) -> (res: Option<String>)
    ensures
        opt_chars(res) == strip_prefix_components(path@, base@),
{
    std::path::Path::new(path).strip_prefix(base).ok().and_then(|p| p.to_str()).map(|p| p.to_string())
}

/// Position of the last `.` in a file name, if there is one.
pub open spec fn last_dot(name: Seq<char>) -> Option<int> {
    if exists|i: int| 0 <= i < name.len() && name[i] == '.' {
        Some(
            choose|i: int|
                0 <= i < name.len() && name[i] == '.' && forall|j: int|
                    i < j < name.len() ==> name[j] != '.',
        )
    } else {
        None
    }
}

/// The extension of a file name (`Path::extension`): the part after the
/// last `.`; none when there is no `.`, or when the only `.` is the first
/// character.
pub open spec fn extension_seq(name: Seq<char>) -> Option<Seq<char>> {
    match last_dot(name) {
        Some(i) => if i == 0 {
            None
        } else {
            Some(name.skip(i + 1))
        },
        None => None,
    }
}

/// Finds the extension of a file name (`Path::extension`).
pub fn extension(name: &str) -> (res: Option<String>)
    ensures
        opt_chars(res) == extension_seq(name@),
{
    let cs = chars_of(name);
    let mut i: usize = cs.len();
    while i > 0
        invariant
            i <= cs.len(),
            cs@ == name@,
            forall|j: int| i <= j < cs.len() ==> cs@[j] != '.',
        decreases i,
    {
        if cs[i - 1] == '.' {
            let k = i - 1;
            proof {
                assert(0 <= k < name@.len() && name@[k as int] == '.');
                let c = choose|c: int|
                    0 <= c < name@.len() && name@[c] == '.' && forall|j: int|
                        c < j < name@.len() ==> name@[j] != '.';
                assert(c == k) by {
                    if c < k {
                    } else if c > k {
                    }
                }
            }
            if k == 0 {
                return None;
            }
            let ext = string_of_range(&cs, k + 1, cs.len());
            assert(cs@.subrange(k + 1, cs.len() as int) == name@.skip(k + 1));
            return Some(ext);
        }
        i = i - 1;
    }
    None
}

/// ASCII case folding of a character.
pub open spec fn ascii_lower(c: char) -> u32 {
    let u = c as u32;
    if 0x41 <= u <= 0x5a {
        (u + 0x20) as u32
    } else {
        u
    }
}

/// Equality up to ASCII case (`str::eq_ignore_ascii_case`).
pub open spec fn eq_ignore_ascii_case_seq(a: Seq<char>, b: Seq<char>) -> bool {
    a.len() == b.len() && forall|i: int| 0 <= i < a.len() ==> ascii_lower(a[i]) == ascii_lower(b[i])
}

fn lower(c: char) -> (res: u32)
    ensures
        res == ascii_lower(c),
{
    let u = c as u32;
    if 0x41 <= u && u <= 0x5a {
        u + 0x20
    } else {
        u
    }
}

/// Compares two texts ignoring ASCII case (`str::eq_ignore_ascii_case`).
pub fn eq_ignore_ascii_case(a: &str, b: &str) -> (res: bool)
    ensures
        res == eq_ignore_ascii_case_seq(a@, b@),
{
    let x = chars_of(a);
    let y = chars_of(b);
    if x.len() != y.len() {
        return false;
    }
    let mut i: usize = 0;
    while i < x.len()
        invariant
            i <= x.len() == y.len(),
            x@ == a@,
            y@ == b@,
            forall|k: int| 0 <= k < i ==> ascii_lower(x@[k]) == ascii_lower(y@[k]),
        decreases x.len() - i,
    {
        if lower(x[i]) != lower(y[i]) {
            return false;
        }
        i = i + 1;
    }
    true
}

// ---------------------------------------------------------------------------
// Normalised relative paths
// ---------------------------------------------------------------------------

/// The language prefixes that localized file names may carry.
pub open spec fn has_lang_prefix(s: Seq<char>) -> bool {
    starts_with_seq(s, "KR_"@) || starts_with_seq(s, "JP_"@) || starts_with_seq(s, "EN_"@)
}

/// A file name with all leading `KR_`, `JP_` and `EN_` prefixes removed,
/// however many and in whatever order.
pub open spec fn strip_lang_prefixes(s: Seq<char>) -> Seq<char>
    decreases s.len(),
{
    if s.len() >= 3 && has_lang_prefix(s) {
        strip_lang_prefixes(s.skip(3))
    } else {
        s
    }
}

/// Removes all leading `KR_`, `JP_` and `EN_` prefixes from a path segment.
pub fn normalize_filename_prefix(segment: &str) -> (res: String)
    ensures
        res@ == strip_lang_prefixes(segment@),
{
    let cs = chars_of(segment);
    let kr = chars_of("KR_");
    let jp = chars_of("JP_");
    let en = chars_of("EN_");
    proof {
        reveal_strlit("KR_");
        reveal_strlit("JP_");
        reveal_strlit("EN_");
    }
    assert(kr@.len() == 3 && jp@.len() == 3 && en@.len() == 3);
    assert(segment@.skip(0) == segment@);
    let mut i: usize = 0;
    while i <= cs.len() && (matches_at(&cs, &kr, i) || matches_at(&cs, &jp, i) || matches_at(
        &cs,
        &en,
        i,
    ))
        invariant
            i <= cs.len(),
            cs@ == segment@,
            kr@ == "KR_"@,
            jp@ == "JP_"@,
            en@ == "EN_"@,
            kr@.len() == 3 && jp@.len() == 3 && en@.len() == 3,
            strip_lang_prefixes(segment@) == strip_lang_prefixes(segment@.skip(i as int)),
        decreases cs.len() - i,
    {
        let ghost rest = segment@.skip(i as int);
        assert(forall|p: Seq<char>|
            p.len() == 3 ==> (occurs_at(cs@, p, i as int) == occurs_at(rest, p, 0))) by {
            assert forall|p: Seq<char>| p.len() == 3 implies occurs_at(cs@, p, i as int)
                == occurs_at(rest, p, 0) by {
                if i + 3 <= cs.len() {
                    assert(cs@.subrange(i as int, i + 3) =~= rest.subrange(0, 3));
                }
            }
        }
        assert(rest.skip(3) =~= segment@.skip(i + 3));
        i = i + 3;
    }
    proof {
        let rest = segment@.skip(i as int);
        if rest.len() >= 3 && has_lang_prefix(rest) {
            assert(cs@.subrange(i as int, i + 3) =~= rest.subrange(0, 3));
        }
    }
    let res = string_of_range(&cs, i, cs.len());
    assert(cs@.subrange(i as int, cs.len() as int) == segment@.skip(i as int));
    res
}

/// The normalised form of a relative path: backslashes become slashes and
/// every segment loses its language prefixes.
pub open spec fn normalize_rel_path_seq(path: Seq<char>) -> Seq<char> {
    join_seq(
        split_of(replace_char_seq(path, '\\', '/'), '/').map_values(
            |seg: Seq<char>| strip_lang_prefixes(seg),
        ),
        "/"@,
    )
}

/// Normalises a relative path so that files of different languages line
/// up: `KR_Story/JP_Text.json` and `Story\Text.json` become
/// `Story/Text.json`.
pub fn normalize_rel_path(path: &str) -> (res: String)
    ensures
        res@ == normalize_rel_path_seq(path@),
{
    let slashed = replace_char(path, '\\', '/');
    let parts = split_char(slashed.as_str(), '/');
    let mut stripped: Vec<String> = Vec::new();
    let mut i: usize = 0;
    let ghost target = split_of(replace_char_seq(path@, '\\', '/'), '/').map_values(
        |seg: Seq<char>| strip_lang_prefixes(seg),
    );
    while i < parts.len()
        invariant
            i <= parts.len(),
            views(parts@) == split_of(replace_char_seq(path@, '\\', '/'), '/'),
            target == views(parts@).map_values(|seg: Seq<char>| strip_lang_prefixes(seg)),
            views(stripped@) == target.take(i as int),
        decreases parts.len() - i,
    {
        let seg = normalize_filename_prefix(parts[i].as_str());
        let ghost before = stripped@;
        assert(before.len() == i) by {
            assert(views(before).len() == before.len());
        }
        stripped.push(seg);
        assert forall|j: int| 0 <= j < i + 1 implies #[trigger] views(stripped@)[j] == target.take(
            i + 1,
        )[j] by {
            if j < i {
                assert(stripped@[j] == before[j]);
                assert(views(before)[j] == target.take(i as int)[j]);
            } else {
                assert(views(parts@)[j] == parts@[j]@);
            }
        }
        assert(views(stripped@) =~= target.take(i + 1));
        i = i + 1;
    }
    assert(target.take(parts.len() as int) =~= target);
    join(&stripped, "/")
}

// ---------------------------------------------------------------------------
// Laws of normalisation
// ---------------------------------------------------------------------------

/// No character of `s` is `c`.
pub open spec fn free_of(s: Seq<char>, c: char) -> bool {
    forall|i: int| 0 <= i < s.len() ==> s[i] != c
}

proof fn lemma_split_free_text(s: Seq<char>, sep: char, cur: Seq<char>)
    requires
        free_of(s, sep),
    ensures
        split_acc(s, sep, cur) == seq![cur + s],
    decreases s.len(),
{
    if s.len() == 0 {
        assert(cur + s =~= cur);
    } else {
        lemma_split_free_text(s.drop_first(), sep, cur.push(s[0]));
        assert(cur.push(s[0]) + s.drop_first() =~= cur + s);
    }
}

proof fn lemma_split_last_piece(x: Seq<char>, sep: char, y: Seq<char>, cur: Seq<char>)
    requires
        free_of(y, sep),
    ensures
        split_acc(x + seq![sep] + y, sep, cur) == split_acc(x, sep, cur).push(y),
    decreases x.len(),
{
    let whole = x + seq![sep] + y;
    if x.len() == 0 {
        assert(whole =~= seq![sep] + y);
        assert(whole.drop_first() =~= y);
        lemma_split_free_text(y, sep, seq![]);
        assert(Seq::<char>::empty() + y =~= y);
        assert(seq![cur] + seq![y] =~= seq![cur].push(y));
    } else {
        assert(whole[0] == x[0]);
        assert(whole.drop_first() =~= x.drop_first() + seq![sep] + y);
        if x[0] == sep {
            lemma_split_last_piece(x.drop_first(), sep, y, seq![]);
            assert(seq![cur] + split_acc(x.drop_first(), sep, seq![]).push(y) =~= (seq![cur]
                + split_acc(x.drop_first(), sep, seq![])).push(y));
        } else {
            lemma_split_last_piece(x.drop_first(), sep, y, cur.push(x[0]));
        }
    }
}

proof fn lemma_split_pieces_free(s: Seq<char>, sep: char, cur: Seq<char>, c: char)
    requires
        c == sep || free_of(s, c),
        free_of(cur, c),
    ensures
        split_acc(s, sep, cur).len() >= 1,
        forall|i: int| 0 <= i < split_acc(s, sep, cur).len() ==> free_of(
            #[trigger] split_acc(s, sep, cur)[i],
            c,
        ),
    decreases s.len(),
{
    if s.len() > 0 {
        if s[0] == sep {
            lemma_split_pieces_free(s.drop_first(), sep, seq![], c);
            let rest = split_acc(s.drop_first(), sep, seq![]);
            assert forall|i: int| 0 <= i < (seq![cur] + rest).len() implies free_of(
                #[trigger] (seq![cur] + rest)[i],
                c,
            ) by {
                if i > 0 {
                    assert((seq![cur] + rest)[i] == rest[i - 1]);
                }
            }
        } else {
            assert(free_of(cur.push(s[0]), c));
            lemma_split_pieces_free(s.drop_first(), sep, cur.push(s[0]), c);
        }
    }
}

proof fn lemma_split_join(parts: Seq<Seq<char>>, sep: char)
    requires
        parts.len() >= 1,
        forall|i: int| 0 <= i < parts.len() ==> free_of(#[trigger] parts[i], sep),
    ensures
        split_of(join_seq(parts, seq![sep]), sep) == parts,
    decreases parts.len(),
{
    if parts.len() == 1 {
        lemma_split_free_text(parts[0], sep, seq![]);
        assert(Seq::<char>::empty() + parts[0] =~= parts[0]);
        assert(seq![parts[0]] =~= parts);
    } else {
        lemma_split_join(parts.drop_last(), sep);
        assert(free_of(parts.last(), sep));
        lemma_split_last_piece(join_seq(parts.drop_last(), seq![sep]), sep, parts.last(), seq![]);
        assert(parts.drop_last().push(parts.last()) =~= parts);
    }
}

proof fn lemma_join_free(parts: Seq<Seq<char>>, sep: Seq<char>, c: char)
    requires
        free_of(sep, c),
        forall|i: int| 0 <= i < parts.len() ==> free_of(#[trigger] parts[i], c),
    ensures
        free_of(join_seq(parts, sep), c),
    decreases parts.len(),
{
    if parts.len() >= 2 {
        lemma_join_free(parts.drop_last(), sep, c);
        assert(free_of(parts.last(), c));
        let j = join_seq(parts.drop_last(), sep);
        assert forall|i: int| 0 <= i < (j + sep + parts.last()).len() implies (j + sep
            + parts.last())[i] != c by {
            if i < j.len() {
                assert((j + sep + parts.last())[i] == j[i]);
            } else if i < j.len() + sep.len() {
                assert((j + sep + parts.last())[i] == sep[i - j.len()]);
            } else {
                assert((j + sep + parts.last())[i] == parts.last()[i - j.len() - sep.len()]);
            }
        }
    } else if parts.len() == 1 {
        assert(free_of(parts[0], c));
    }
}

proof fn lemma_strip_props(s: Seq<char>, c: char)
    ensures
        free_of(s, c) ==> free_of(strip_lang_prefixes(s), c),
        strip_lang_prefixes(strip_lang_prefixes(s)) == strip_lang_prefixes(s),
    decreases s.len(),
{
    if s.len() >= 3 && has_lang_prefix(s) {
        lemma_strip_props(s.skip(3), c);
        if free_of(s, c) {
            assert(free_of(s.skip(3), c));
        }
    }
}

/// Normalising settles a path: the result has no backslash, and
/// normalising it again changes nothing.
pub proof fn lemma_normalize_rel_path_settles(path: Seq<char>)
    ensures
        free_of(normalize_rel_path_seq(path), '\\'),
        normalize_rel_path_seq(normalize_rel_path_seq(path)) == normalize_rel_path_seq(path),
{
    let r = replace_char_seq(path, '\\', '/');
    assert(free_of(r, '\\'));
    let parts = split_of(r, '/');
    lemma_split_pieces_free(r, '/', seq![], '/');
    lemma_split_pieces_free(r, '/', seq![], '\\');
    let f = |seg: Seq<char>| strip_lang_prefixes(seg);
    let stripped = parts.map_values(f);
    assert forall|i: int| 0 <= i < stripped.len() implies free_of(#[trigger] stripped[i], '/')
        && free_of(stripped[i], '\\') && f(stripped[i]) == stripped[i] by {
        lemma_strip_props(parts[i], '/');
        lemma_strip_props(parts[i], '\\');
    }
    reveal_strlit("/");
    assert("/"@ =~= seq!['/']);
    let n = join_seq(stripped, "/"@);
    assert(n == normalize_rel_path_seq(path));
    lemma_join_free(stripped, "/"@, '\\');
    assert(replace_char_seq(n, '\\', '/') =~= n);
    lemma_split_join(stripped, '/');
    assert(split_of(n, '/').map_values(f) =~= stripped);
}

} // verus!
