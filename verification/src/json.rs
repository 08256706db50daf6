//! A JSON document model, paths into documents, and the three operations the
//! translator performs on documents: collecting translatable text, reading
//! the value at a path, and writing a string at a path.
use vstd::prelude::*;

use crate::error::{plain_error, UserFacingError};
use crate::text::{concat, decimal, decimal_seq, str_eq, views};

verus! {

// ---------------------------------------------------------------------------
// Model
// ---------------------------------------------------------------------------

/// The mathematical value of a JSON document.
pub enum JsonView {
    Null,
    Bool(bool),
    /// The integer value when the number is an integer that fits in `i64`,
    /// and the number's text.
    Number(Option<i64>, Seq<char>),
    Str(Seq<char>),
    Array(Seq<JsonView>),
    /// Members in document order.
    Object(Seq<(Seq<char>, JsonView)>),
}

/// A JSON number: its value as `i64` when it is an integer that fits, and
/// its text.
#[derive(Debug, Clone)]
pub struct JsonNumber {
    pub int_value: Option<i64>,
    pub text: String,
}

/// A JSON document.
#[derive(Debug)]
pub enum JsonValue {
    Null,
    Bool(bool),
    Number(JsonNumber),
    Str(String),
    Array(Vec<JsonValue>),
    /// Members in document order; keys are unique in documents read from
    /// text.
    Object(Vec<(String, JsonValue)>),
}

impl JsonValue {
    /// The mathematical value of the document.
    pub open spec fn view_of(self) -> JsonView
        decreases self,
    {
        match self {
            JsonValue::Null => JsonView::Null,
            JsonValue::Bool(b) => JsonView::Bool(b),
            JsonValue::Number(n) => JsonView::Number(n.int_value, n.text@),
            JsonValue::Str(s) => JsonView::Str(s@),
            JsonValue::Array(v) => JsonView::Array(
                Seq::new(
                    v.len() as nat,
                    |i: int|
                        if 0 <= i < v.len() {
                            v@[i].view_of()
                        } else {
                            JsonView::Null
                        },
                ),
            ),
            JsonValue::Object(m) => JsonView::Object(
                Seq::new(
                    m.len() as nat,
                    |i: int|
                        if 0 <= i < m.len() {
                            (m@[i].0@, m@[i].1.view_of())
                        } else {
                            (Seq::empty(), JsonView::Null)
                        },
                ),
            ),
        }
    }
}

/// The views of a sequence of documents.
pub open spec fn values_view(v: Seq<JsonValue>) -> Seq<JsonView> {
    Seq::new(v.len(), |i: int| v[i].view_of())
}

/// A step of a path into a document.
pub enum PathStep {
    Key(Seq<char>),
    Index(int),
}

/// A step of a path into a document: an object member or an array element.
#[derive(Debug, Clone)]
pub enum PathSegment {
    Key(String),
    Index(usize),
}

impl PathSegment {
    /// The mathematical step.
    pub open spec fn step(self) -> PathStep {
        match self {
            PathSegment::Key(k) => PathStep::Key(k@),
            PathSegment::Index(i) => PathStep::Index(i as int),
        }
    }

    /// A copy of the step.
    pub fn duplicate(&self) -> (res: Self)
        ensures
            res.step() == self.step(),
    {
        match self {
            PathSegment::Key(k) => PathSegment::Key(k.clone()),
            PathSegment::Index(i) => PathSegment::Index(*i),
        }
    }
}

/// The mathematical steps of a path.
pub open spec fn steps(p: Seq<PathSegment>) -> Seq<PathStep> {
    Seq::new(p.len(), |i: int| p[i].step())
}

/// Copies a path step by step.
pub fn copy_path(p: &Vec<PathSegment>) -> (res: Vec<PathSegment>)
    ensures
        steps(res@) == steps(p@),
{
    let mut res: Vec<PathSegment> = Vec::new();
    let mut i: usize = 0;
    while i < p.len()
        invariant
            i <= p.len(),
            steps(res@) == steps(p@.take(i as int)),
        decreases p.len() - i,
    {
        let ghost before = res@;
        assert(before.len() == i) by {
            assert(steps(before).len() == before.len());
        }
        res.push(p[i].duplicate());
        assert forall|j: int| 0 <= j < i + 1 implies #[trigger] res@[j].step() == p@.take(
            i + 1,
        )[j].step() by {
            if j < i {
                assert(res@[j] == before[j]);
                assert(steps(before)[j] == steps(p@.take(i as int))[j]);
            }
        }
        assert(steps(res@) =~= steps(p@.take(i + 1)));
        i = i + 1;
    }
    assert(p@.take(p@.len() as int) == p@);
    res
}

/// A path extended by one step.
pub fn path_push(p: &Vec<PathSegment>, seg: PathSegment) -> (res: Vec<PathSegment>)
    ensures
        steps(res@) == steps(p@).push(seg.step()),
{
    let mut res = copy_path(p);
    res.push(seg);
    assert(steps(res@) =~= steps(p@).push(seg.step()));
    res
}

/// A text found in a document and the path that leads to it.
#[derive(Debug, Clone)]
pub struct ExtractedEntry {
    pub path: Vec<PathSegment>,
    pub text: String,
}

impl ExtractedEntry {
    /// The path's steps and the text.
    pub open spec fn entry_view(self) -> (Seq<PathStep>, Seq<char>) {
        (steps(self.path@), self.text@)
    }
}

/// The views of a sequence of extracted entries.
pub open spec fn entries_view(v: Seq<ExtractedEntry>) -> Seq<(Seq<PathStep>, Seq<char>)> {
    Seq::new(v.len(), |i: int| v[i].entry_view())
}

// ---------------------------------------------------------------------------
// Reading
// ---------------------------------------------------------------------------

/// Index of the first member named `key`, searching from position `i`.
pub open spec fn first_member(m: Seq<(Seq<char>, JsonView)>, key: Seq<char>, i: int) -> Option<int>
    decreases m.len() - i,
{
    if i < 0 || i >= m.len() {
        None
    } else if m[i].0 == key {
        Some(i)
    } else {
        first_member(m, key, i + 1)
    }
}

/// The value of the member `key` of an object (`Value::get` with a key):
/// `None` for a missing key or a value that is not an object.
pub open spec fn get_member(v: JsonView, key: Seq<char>) -> Option<JsonView> {
    match v {
        JsonView::Object(m) => match first_member(m, key, 0) {
            Some(i) => Some(m[i].1),
            None => None,
        },
        _ => None,
    }
}

/// The value at the end of a path, if the path leads anywhere.
pub open spec fn lookup(v: JsonView, path: Seq<PathStep>) -> Option<JsonView>
    decreases path.len(),
{
    if path.len() == 0 {
        Some(v)
    } else {
        match (path[0], v) {
            (PathStep::Key(k), JsonView::Object(m)) => match first_member(m, k, 0) {
                Some(i) => lookup(m[i].1, path.drop_first()),
                None => None,
            },
            (PathStep::Index(i), JsonView::Array(a)) => if 0 <= i < a.len() {
                lookup(a[i], path.drop_first())
            } else {
                None
            },
            _ => None,
        }
    }
}

/// The first member named `key` from position `i` on is named `key` and
/// no earlier member from `i` on is.
pub proof fn lemma_first_member_props(m: Seq<(Seq<char>, JsonView)>, key: Seq<char>, i: int)
    requires
        0 <= i,
    ensures
        match first_member(m, key, i) {
            Some(j) => i <= j < m.len() && m[j].0 == key && forall|k: int|
                i <= k < j ==> m[k].0 != key,
            None => forall|k: int| i <= k < m.len() ==> m[k].0 != key,
        },
    decreases m.len() - i,
{
    if i < m.len() && m[i].0 != key {
        lemma_first_member_props(m, key, i + 1);
    }
}

/// Finds the first member named `key` (from position 0).
pub fn find_member(m: &Vec<(String, JsonValue)>, key: &str) -> (res: Option<usize>)
    ensures
        match res {
            Some(i) => i < m.len() && first_member(
                JsonValue::Object(*m).view_of()->Object_0,
                key@,
                0,
            ) == Some(i as int),
            None => first_member(JsonValue::Object(*m).view_of()->Object_0, key@, 0) is None,
        },
{
    let ghost mv = JsonValue::Object(*m).view_of()->Object_0;
    let mut i: usize = 0;
    while i < m.len()
        invariant
            i <= m.len(),
            mv == JsonValue::Object(*m).view_of()->Object_0,
            mv.len() == m.len(),
            forall|k: int| 0 <= k < i ==> mv[k].0 != key@,
        decreases m.len() - i,
    {
        assert(mv[i as int].0 == m@[i as int].0@);
        if str_eq(m[i].0.as_str(), key) {
            proof {
                lemma_first_member_props(mv, key@, 0);
                match first_member(mv, key@, 0) {
                    Some(j) => {
                        assert(j >= i);
                        if j > i {
                            assert(mv[i as int].0 == key@);
                        }
                    },
                    None => {
                        assert(mv[i as int].0 != key@);
                    },
                }
            }
            return Some(i);
        }
        i = i + 1;
    }
    proof {
        lemma_first_member_props(mv, key@, 0);
        match first_member(mv, key@, 0) {
            Some(j) => {
                assert(mv[j].0 != key@);
            },
            None => {},
        }
    }
    None
}

/// The member `key` of an object (`Value::get` with a key).
pub fn get_member_ref<'a>(v: &'a JsonValue, key: &str) -> (res: Option<&'a JsonValue>)
    ensures
        match res {
            Some(x) => get_member(v.view_of(), key@) == Some(x.view_of()),
            None => get_member(v.view_of(), key@) is None,
        },
{
    match v {
        JsonValue::Object(m) => {
            match find_member(m, key) {
                Some(i) => {
                    assert(v.view_of()->Object_0[i as int].1 == m@[i as int].1.view_of());
                    Some(&m[i].1)
                },
                None => None,
            }
        },
        _ => None,
    }
}

/// A deep copy of a document.
#[verifier::loop_isolation(false)]
pub fn copy_json(v: &JsonValue) -> (res: JsonValue)
    ensures
        res.view_of() == v.view_of(),
    decreases v,
{
    match v {
        JsonValue::Null => JsonValue::Null,
        JsonValue::Bool(b) => JsonValue::Bool(*b),
        JsonValue::Number(n) => JsonValue::Number(
            JsonNumber { int_value: n.int_value, text: n.text.clone() },
        ),
        JsonValue::Str(s) => JsonValue::Str(s.clone()),
        JsonValue::Array(items) => {
            let mut out: Vec<JsonValue> = Vec::new();
            let mut i: usize = 0;
            while i < items.len()
                invariant
                    i <= items.len(),
                    out.len() == i,
                    forall|k: int| 0 <= k < i ==> (#[trigger] out@[k]).view_of() == items@[k].view_of(),
                decreases items.len() - i,
            {
                let c = copy_json(&items[i]);
                out.push(c);
                i = i + 1;
            }
            let r = JsonValue::Array(out);
            assert(r.view_of()->Array_0 =~= v.view_of()->Array_0);
            r
        },
        JsonValue::Object(members) => {
            let mut out: Vec<(String, JsonValue)> = Vec::new();
            let mut i: usize = 0;
            while i < members.len()
                invariant
                    i <= members.len(),
                    out.len() == i,
                    forall|k: int|
                        0 <= k < i ==> (#[trigger] out@[k]).0@ == members@[k].0@ && out@[k].1.view_of()
                            == members@[k].1.view_of(),
                decreases members.len() - i,
            {
                let c = copy_json(&members[i].1);
                out.push((members[i].0.clone(), c));
                i = i + 1;
            }
            let r = JsonValue::Object(out);
            assert(r.view_of()->Object_0 =~= v.view_of()->Object_0);
            r
        },
    }
}

// ---------------------------------------------------------------------------
// Writing
// ---------------------------------------------------------------------------

/// The document after replacing the value at the end of `path` by `new`;
/// `None` when the path does not lead anywhere.
pub open spec fn update(v: JsonView, path: Seq<PathStep>, new: JsonView) -> Option<JsonView>
    decreases path.len(),
{
    if path.len() == 0 {
        Some(new)
    } else {
        match (path[0], v) {
            (PathStep::Key(k), JsonView::Object(m)) => match first_member(m, k, 0) {
                Some(i) => match update(m[i].1, path.drop_first(), new) {
                    Some(c) => Some(JsonView::Object(m.update(i, (m[i].0, c)))),
                    None => None,
                },
                None => None,
            },
            (PathStep::Index(i), JsonView::Array(a)) => if 0 <= i < a.len() {
                match update(a[i], path.drop_first(), new) {
                    Some(c) => Some(JsonView::Array(a.update(i, c))),
                    None => None,
                }
            } else {
                None
            },
            _ => None,
        }
    }
}

/// The message of the error reported when a write along `path` fails.
pub open spec fn update_failure(v: JsonView, path: Seq<PathStep>) -> Seq<char>
    decreases path.len(),
{
    if path.len() == 0 {
        Seq::empty()
    } else {
        match (path[0], v) {
            (PathStep::Key(k), JsonView::Object(m)) => match first_member(m, k, 0) {
                Some(i) => update_failure(m[i].1, path.drop_first()),
                None => "Missing field '"@ + k + "'."@,
            },
            (PathStep::Index(i), JsonView::Array(a)) => if 0 <= i < a.len() {
                update_failure(a[i], path.drop_first())
            } else {
                "Missing list index "@ + decimal_seq(i as nat) + "."@
            },
            _ => "Encountered non-container value while writing translation."@,
        }
    }
}

/// The error reported when a write along `path` into `v` fails.
pub open spec fn is_update_error(e: UserFacingError, v: JsonView, path: Seq<PathStep>) -> bool {
    e.is("Path Error"@, update_failure(v, path), None)
}

proof fn lemma_object_view_update(m: Vec<(String, JsonValue)>, m2: Vec<(String, JsonValue)>, i: int)
    requires
        0 <= i < m.len(),
        m2@ == m@.update(i, m2@[i]),
        m2@[i].0@ == m@[i].0@,
    ensures
        JsonValue::Object(m2).view_of() == JsonView::Object(
            JsonValue::Object(m).view_of()->Object_0.update(
                i,
                (m@[i].0@, m2@[i].1.view_of()),
            ),
        ),
{
    let a = JsonValue::Object(m2).view_of()->Object_0;
    let b = JsonValue::Object(m).view_of()->Object_0.update(i, (m@[i].0@, m2@[i].1.view_of()));
    assert(a =~= b);
}

proof fn lemma_array_view_update(v: Vec<JsonValue>, v2: Vec<JsonValue>, i: int)
    requires
        0 <= i < v.len(),
        v2@ == v@.update(i, v2@[i]),
    ensures
        JsonValue::Array(v2).view_of() == JsonView::Array(
            JsonValue::Array(v).view_of()->Array_0.update(i, v2@[i].view_of()),
        ),
{
    let a = JsonValue::Array(v2).view_of()->Array_0;
    let b = JsonValue::Array(v).view_of()->Array_0.update(i, v2@[i].view_of());
    assert(a =~= b);
}

/// Writes `replacement` as a string at the end of `path[from..]` inside
/// `current` and returns the document together with the outcome. On
/// failure the document comes back unchanged and the error names the first
/// step that does not lead anywhere.
pub fn set_value_at(current: JsonValue, path: &Vec<PathSegment>, from: usize, replacement: String) -> (res: (
    JsonValue,
    Result<(), UserFacingError>,
))
    requires
        from <= path.len(),
    ensures
        match update(
            current.view_of(),
            steps(path@).skip(from as int),
            JsonView::Str(replacement@),
        ) {
            Some(nv) => res.1 is Ok && res.0.view_of() == nv,
            None => res.0.view_of() == current.view_of() && (res.1 matches Err(e) && is_update_error(
                e,
                current.view_of(),
                steps(path@).skip(from as int),
            )),
        },
    decreases path.len() - from,
{
    let ghost rest = steps(path@).skip(from as int);
    if from == path.len() {
        assert(rest.len() == 0);
        return (JsonValue::Str(replacement), Ok(()));
    }
    assert(rest[0] == path@[from as int].step());
    assert(rest.drop_first() == steps(path@).skip(from + 1));
    match (&path[from], current) {
        (PathSegment::Key(key), JsonValue::Object(mut map)) => {
            let ghost old_map = map;
            match find_member(&map, key.as_str()) {
                Some(idx) => {
                    let (k, child) = map.remove(idx);
                    let ghost old_child = child;
                    assert(old_child == old_map@[idx as int].1);
                    assert(JsonValue::Object(old_map).view_of()->Object_0[idx as int].1
                        == old_child.view_of());
                    let (new_child, r) = set_value_at(child, path, from + 1, replacement);
                    map.insert(idx, (k, new_child));
                    proof {
                        assert(map@ == old_map@.update(idx as int, map@[idx as int]));
                        lemma_object_view_update(old_map, map, idx as int);
                        if r is Err {
                            let ov = JsonValue::Object(old_map).view_of()->Object_0;
                            assert(ov.update(idx as int, (old_map@[idx as int].0@, new_child.view_of()))
                                =~= ov);
                        }
                    }
                    (JsonValue::Object(map), r)
                },
                None => {
                    let m1 = concat("Missing field '", key.as_str());
                    let message = concat(m1.as_str(), "'.");
                    (JsonValue::Object(map), Err(plain_error("Path Error", message.as_str())))
                },
            }
        },
        (PathSegment::Index(index), JsonValue::Array(mut list)) => {
            let index = *index;
            if index < list.len() {
                let ghost old_list = list;
                let child = list.remove(index);
                let ghost old_child = child;
                assert(old_child == old_list@[index as int]);
                let (new_child, r) = set_value_at(child, path, from + 1, replacement);
                list.insert(index, new_child);
                proof {
                    assert(list@ == old_list@.update(index as int, list@[index as int]));
                    lemma_array_view_update(old_list, list, index as int);
                    if r is Err {
                        let ov = JsonValue::Array(old_list).view_of()->Array_0;
                        assert(ov.update(index as int, new_child.view_of()) =~= ov);
                    }
                }
                (JsonValue::Array(list), r)
            } else {
                let m1 = concat("Missing list index ", decimal(index).as_str());
                let message = concat(m1.as_str(), ".");
                (JsonValue::Array(list), Err(plain_error("Path Error", message.as_str())))
            }
        },
        (_, other) => {
            (
                other,
                Err(
                    plain_error(
                        "Path Error",
                        "Encountered non-container value while writing translation.",
                    ),
                ),
            )
        },
    }
}

/// The list after writing a string at `path`, whose first step picks an
/// element of the list; `None` when the path is not usable.
pub open spec fn update_list(list: Seq<JsonView>, path: Seq<PathStep>, new: JsonView) -> Option<
    Seq<JsonView>,
> {
    if path.len() == 0 {
        Some(list)
    } else {
        match path[0] {
            PathStep::Index(i) => if 0 <= i < list.len() {
                match update(list[i], path.drop_first(), new) {
                    Some(c) => Some(list.update(i, c)),
                    None => None,
                }
            } else {
                None
            },
            PathStep::Key(_) => None,
        }
    }
}

/// The message of the error reported when `update_list` fails.
pub open spec fn update_list_failure(list: Seq<JsonView>, path: Seq<PathStep>) -> Seq<char> {
    match path[0] {
        PathStep::Index(i) => if 0 <= i < list.len() {
            update_failure(list[i], path.drop_first())
        } else {
            "Could not locate target entry for translated text."@
        },
        PathStep::Key(_) => "Invalid translation path."@,
    }
}

/// Writes `replacement` at `path` inside a list of documents: the first
/// step must be an index into the list, the rest a path inside that
/// element. An empty path changes nothing.
pub fn set_text_in_list(list: &mut Vec<JsonValue>, path: &Vec<PathSegment>, replacement: String) -> (res:
    Result<(), UserFacingError>)
    ensures
        match update_list(values_view(old(list)@), steps(path@), JsonView::Str(replacement@)) {
            Some(nl) => res is Ok && values_view(final(list)@) == nl,
            None => values_view(final(list)@) == values_view(old(list)@) && (res matches Err(e) && e.is(
                "Path Error"@,
                update_list_failure(values_view(old(list)@), steps(path@)),
                None,
            )),
        },
{
    if path.len() == 0 {
        return Ok(());
    }
    let ghost ps = steps(path@);
    assert(ps[0] == path@[0].step());
    assert(ps.drop_first() == steps(path@).skip(1));
    match &path[0] {
        PathSegment::Index(index) => {
            let index = *index;
            if index >= list.len() {
                return Err(
                    plain_error("Path Error", "Could not locate target entry for translated text."),
                );
            }
            let ghost old_list = *list;
            let child = list.remove(index);
            let (new_child, r) = set_value_at(child, path, 1, replacement);
            list.insert(index, new_child);
            proof {
                if r is Err {
                    assert(values_view(list@) =~= values_view(old_list@));
                } else {
                    assert(values_view(list@) =~= values_view(old_list@).update(
                        index as int,
                        list@[index as int].view_of(),
                    ));
                }
            }
            r
        },
        PathSegment::Key(_) => Err(plain_error("Path Error", "Invalid translation path.")),
    }
}

// ---------------------------------------------------------------------------
// Collecting translatable text
// ---------------------------------------------------------------------------

/// The entries of one object member: nothing for a blacklisted key; the
/// member's string when its key is one of the requested fields; otherwise
/// whatever lies inside the member.
pub open spec fn member_entries(
    key: Seq<char>,
    value: JsonView,
    blacklist: Seq<Seq<char>>,
    path: Seq<PathStep>,
    fields: Option<Seq<Seq<char>>>,
) -> Seq<(Seq<PathStep>, Seq<char>)>
    decreases value, 1int,
{
    if blacklist.contains(key) {
        seq![]
    } else {
        let p = path.push(PathStep::Key(key));
        if fields is Some && fields->0.contains(key) && value is Str {
            seq![(p, value->Str_0)]
        } else {
            extract(value, blacklist, p, fields)
        }
    }
}

/// The entries of each member of an object, member by member.
pub open spec fn object_parts(
    m: Seq<(Seq<char>, JsonView)>,
    blacklist: Seq<Seq<char>>,
    path: Seq<PathStep>,
    fields: Option<Seq<Seq<char>>>,
) -> Seq<Seq<(Seq<PathStep>, Seq<char>)>>
    decreases m, 2int,
{
    Seq::new(
        m.len(),
        |i: int|
            if 0 <= i < m.len() {
                member_entries(m[i].0, m[i].1, blacklist, path, fields)
            } else {
                seq![]
            },
    )
}

/// The entries of each element of an array, element by element.
pub open spec fn array_parts(
    a: Seq<JsonView>,
    blacklist: Seq<Seq<char>>,
    path: Seq<PathStep>,
    fields: Option<Seq<Seq<char>>>,
) -> Seq<Seq<(Seq<PathStep>, Seq<char>)>>
    decreases a, 2int,
{
    Seq::new(
        a.len(),
        |i: int|
            if 0 <= i < a.len() {
                extract(a[i], blacklist, path.push(PathStep::Index(i)), fields)
            } else {
                seq![]
            },
    )
}

/// The translatable texts inside a document, in document order, each with
/// its path (which starts with `path`). Without requested fields every
/// string counts; with requested fields only strings held directly by a
/// member of one of those names count. Members whose key is blacklisted
/// are skipped with everything inside them.
pub open spec fn extract(
    v: JsonView,
    blacklist: Seq<Seq<char>>,
    path: Seq<PathStep>,
    fields: Option<Seq<Seq<char>>>,
) -> Seq<(Seq<PathStep>, Seq<char>)>
    decreases v, 0int,
{
    match v {
        JsonView::Object(m) => object_parts(m, blacklist, path, fields).flatten(),
        JsonView::Array(a) => array_parts(a, blacklist, path, fields).flatten(),
        JsonView::Str(s) => if fields is None {
            seq![(path, s)]
        } else {
            seq![]
        },
        _ => seq![],
    }
}

/// The character views of optional field names.
pub open spec fn fields_view(f: Option<Vec<String>>) -> Option<Seq<Seq<char>>> {
    match f {
        Some(v) => Some(views(v@)),
        None => None,
    }
}

/// Whether `names` holds `key`.
pub fn list_contains(names: &Vec<String>, key: &str) -> (res: bool)
    ensures
        res == views(names@).contains(key@),
{
    let mut i: usize = 0;
    while i < names.len()
        invariant
            i <= names.len(),
            forall|k: int| 0 <= k < i ==> names@[k]@ != key@,
        decreases names.len() - i,
    {
        if str_eq(names[i].as_str(), key) {
            assert(views(names@)[i as int] == key@);
            return true;
        }
        i = i + 1;
    }
    proof {
        if views(names@).contains(key@) {
            let k = choose|k: int| 0 <= k < views(names@).len() && views(names@)[k] == key@;
            assert(names@[k]@ == key@);
        }
    }
    false
}

/// Appends extracted entries to an accumulator.
fn append_entries(acc: &mut Vec<ExtractedEntry>, more: Vec<ExtractedEntry>)
    ensures
        entries_view(final(acc)@) == entries_view(old(acc)@) + entries_view(more@),
{
    let mut more = more;
    let ghost m0 = more@;
    let mut tail: Vec<ExtractedEntry> = Vec::new();
    // move the entries over in order
    let mut i: usize = 0;
    let n = more.len();
    while i < n
        invariant
            i <= n == m0.len(),
            more@ == m0.take(n - i),
            tail@ == m0.skip(n - i).reverse(),
        decreases n - i,
    {
        let e = more.pop().unwrap();
        tail.push(e);
        assert(m0.take(n - i - 1) == m0.take(n - i).drop_last());
        assert(m0.skip(n - i - 1).reverse() =~= m0.skip(n - i).reverse().push(m0[n - i - 1]));
        i = i + 1;
    }
    assert(tail@ == m0.reverse()) by {
        assert(m0.skip(0) == m0);
    }
    let ghost a0 = acc@;
    let mut j: usize = 0;
    while j < n
        invariant
            j <= n == m0.len(),
            tail@ == m0.reverse().take(n - j),
            acc@ == a0 + m0.take(j as int),
        decreases n - j,
    {
        let e = tail.pop().unwrap();
        assert(e == m0[j as int]);
        acc.push(e);
        assert(m0.take(j + 1) == m0.take(j as int).push(m0[j as int]));
        assert(m0.reverse().take(n - j - 1) == m0.reverse().take(n - j).drop_last());
        j = j + 1;
    }
    assert(m0.take(n as int) == m0);
    assert(entries_view(acc@) =~= entries_view(a0) + entries_view(m0));
}

/// Collects the translatable texts inside `data`, each with its path,
/// starting from `current_path` (see `extract`).
#[verifier::loop_isolation(false)]
pub fn extract_text(
    data: &JsonValue,
    blacklist: &Vec<String>,
    current_path: &Vec<PathSegment>,
    extract_fields: &Option<Vec<String>>,
) -> (res: Vec<ExtractedEntry>)
    ensures
        entries_view(res@) == extract(
            data.view_of(),
            views(blacklist@),
            steps(current_path@),
            fields_view(*extract_fields),
        ),
    decreases data,
{
    let ghost bl = views(blacklist@);
    let ghost p = steps(current_path@);
    let ghost f = fields_view(*extract_fields);
    match data {
        JsonValue::Object(map) => {
            let ghost mv = data.view_of()->Object_0;
            assert(data.view_of() == JsonView::Object(mv));
            assert(mv.len() == map.len());
            let ghost parts = object_parts(mv, bl, p, f);
            let mut items: Vec<ExtractedEntry> = Vec::new();
            let mut i: usize = 0;
            while i < map.len()
                invariant
                    i <= map.len(),
                    entries_view(items@) == parts.take(i as int).flatten(),
                decreases map.len() - i,
            {
                let key = &map[i].0;
                let value = &map[i].1;
                assert(data.view_of()->Object_0[i as int] == (key@, value.view_of()));
                assert(parts.take(i + 1) == parts.take(i as int).push(parts[i as int]));
                proof {
                    parts.take(i as int).lemma_flatten_push(parts[i as int]);
                }
                if list_contains(blacklist, key.as_str()) {
                    assert(parts[i as int] == Seq::<(Seq<PathStep>, Seq<char>)>::empty());
                    i = i + 1;
                    continue;
                }
                let path = path_push(current_path, PathSegment::Key(key.clone()));
                let is_field = match extract_fields {
                    Some(fields) => list_contains(fields, key.as_str()),
                    None => false,
                };
                match value {
                    JsonValue::Str(s) if is_field => {
                        let ghost before = items@;
                        items.push(ExtractedEntry { path, text: s.clone() });
                        assert(entries_view(items@) =~= entries_view(before) + parts[i as int]);
                    },
                    _ => {
                        let more = extract_text(value, blacklist, &path, extract_fields);
                        append_entries(&mut items, more);
                    },
                }
                i = i + 1;
            }
            assert(parts.take(map.len() as int) == parts);
            items
        },
        JsonValue::Array(list) => {
            let ghost av = data.view_of()->Array_0;
            assert(data.view_of() == JsonView::Array(av));
            assert(av.len() == list.len());
            let ghost parts = array_parts(av, bl, p, f);
            let mut items: Vec<ExtractedEntry> = Vec::new();
            let mut i: usize = 0;
            while i < list.len()
                invariant
                    i <= list.len(),
                    entries_view(items@) == parts.take(i as int).flatten(),
                decreases list.len() - i,
            {
                assert(data.view_of()->Array_0[i as int] == list@[i as int].view_of());
                assert(parts.take(i + 1) == parts.take(i as int).push(parts[i as int]));
                proof {
                    parts.take(i as int).lemma_flatten_push(parts[i as int]);
                }
                let path = path_push(current_path, PathSegment::Index(i));
                let more = extract_text(&list[i], blacklist, &path, extract_fields);
                append_entries(&mut items, more);
                i = i + 1;
            }
            assert(parts.take(list.len() as int) == parts);
            items
        },
        JsonValue::Str(text) => {
            let mut items: Vec<ExtractedEntry> = Vec::new();
            if extract_fields.is_none() {
                items.push(ExtractedEntry { path: copy_path(current_path), text: text.clone() });
                assert(entries_view(items@) =~= seq![(p, text@)]);
            }
            items
        },
        _ => Vec::new(),
    }
}

// ---------------------------------------------------------------------------
// Laws
// ---------------------------------------------------------------------------

/// Writing along a path succeeds exactly when the path leads to a value.
pub proof fn lemma_update_defined(v: JsonView, path: Seq<PathStep>, new: JsonView)
    ensures
        update(v, path, new) is Some <==> lookup(v, path) is Some,
    decreases path.len(),
{
    if path.len() > 0 {
        match (path[0], v) {
            (PathStep::Key(k), JsonView::Object(m)) => {
                if let Some(i) = first_member(m, k, 0) {
                    lemma_update_defined(m[i].1, path.drop_first(), new);
                }
            },
            (PathStep::Index(i), JsonView::Array(a)) => {
                if 0 <= i < a.len() {
                    lemma_update_defined(a[i], path.drop_first(), new);
                }
            },
            _ => {},
        }
    }
}

/// Replacing the value of the first member named `k` keeps it the first
/// member named `k`.
pub proof fn lemma_first_member_update(m: Seq<(Seq<char>, JsonView)>, k: Seq<char>, i: int, c: JsonView)
    requires
        first_member(m, k, 0) == Some(i),
    ensures
        first_member(m.update(i, (m[i].0, c)), k, 0) == Some(i),
{
    lemma_first_member_props(m, k, 0);
    let m2 = m.update(i, (m[i].0, c));
    lemma_first_member_props(m2, k, 0);
    match first_member(m2, k, 0) {
        Some(j) => {
            if j < i {
                assert(m2[j].0 == m[j].0);
            }
            if j > i {
                assert(m2[i].0 == k);
            }
        },
        None => {
            assert(m2[i].0 == k);
        },
    }
}

/// A read after a write: after writing `new` along `path`, reading along
/// `path` gives `new`.
pub proof fn lemma_read_after_write(v: JsonView, path: Seq<PathStep>, new: JsonView)
    requires
        update(v, path, new) is Some,
    ensures
        lookup(update(v, path, new)->0, path) == Some(new),
    decreases path.len(),
{
    if path.len() > 0 {
        match (path[0], v) {
            (PathStep::Key(k), JsonView::Object(m)) => {
                let i = first_member(m, k, 0)->0;
                lemma_first_member_props(m, k, 0);
                lemma_read_after_write(m[i].1, path.drop_first(), new);
                let c = update(m[i].1, path.drop_first(), new)->0;
                lemma_first_member_update(m, k, i, c);
                let m2 = m.update(i, (m[i].0, c));
                assert(update(v, path, new) == Some(JsonView::Object(m2)));
                assert(m2[i].1 == c);
                assert(lookup(JsonView::Object(m2), path) == lookup(c, path.drop_first()));
            },
            (PathStep::Index(i), JsonView::Array(a)) => {
                lemma_read_after_write(a[i], path.drop_first(), new);
                let c = update(a[i], path.drop_first(), new)->0;
                assert(update(v, path, new) == Some(JsonView::Array(a.update(i, c))));
                assert(a.update(i, c)[i] == c);
                assert(lookup(JsonView::Array(a.update(i, c)), path) == lookup(c, path.drop_first()));
            },
            _ => {},
        }
    }
}

/// Writing back the value that a path already leads to leaves the document
/// as it was.
pub proof fn lemma_write_same_is_identity(v: JsonView, path: Seq<PathStep>)
    requires
        lookup(v, path) is Some,
    ensures
        update(v, path, lookup(v, path)->0) == Some(v),
    decreases path.len(),
{
    if path.len() > 0 {
        let x = lookup(v, path)->0;
        match (path[0], v) {
            (PathStep::Key(k), JsonView::Object(m)) => {
                let i = first_member(m, k, 0)->0;
                lemma_first_member_props(m, k, 0);
                lemma_write_same_is_identity(m[i].1, path.drop_first());
                assert(m.update(i, (m[i].0, m[i].1)) =~= m);
            },
            (PathStep::Index(i), JsonView::Array(a)) => {
                lemma_write_same_is_identity(a[i], path.drop_first());
                assert(a.update(i, a[i]) =~= a);
            },
            _ => {},
        }
    }
}


/// No object in the document has two members with the same key (true of
/// every document read from JSON text).
pub open spec fn well_formed(v: JsonView) -> bool
    decreases v,
{
    match v {
        JsonView::Object(m) => {
            &&& forall|i: int, j: int| 0 <= i < j < m.len() ==> m[i].0 != m[j].0
            &&& forall|i: int| 0 <= i < m.len() ==> well_formed(#[trigger] m[i].1)
        },
        JsonView::Array(a) => forall|i: int| 0 <= i < a.len() ==> well_formed(#[trigger] a[i]),
        _ => true,
    }
}

proof fn lemma_flatten_index<A>(s: Seq<Seq<A>>, n: int) -> (r: (int, int))
    requires
        0 <= n < s.flatten().len(),
    ensures
        0 <= r.0 < s.len(),
        0 <= r.1 < s[r.0].len(),
        s.flatten()[n] == s[r.0][r.1],
        n == s.take(r.0).flatten().len() + r.1,
    decreases s.len(),
{
    assert(s.len() > 0);
    let rest = s.drop_first();
    assert(s.flatten() == s[0] + rest.flatten());
    if n < s[0].len() {
        assert(s.take(0) =~= Seq::<Seq<A>>::empty());
        (0, n)
    } else {
        let r = lemma_flatten_index(rest, n - s[0].len());
        assert(rest[r.0] == s[r.0 + 1]);
        let t = s.take(r.0 + 1);
        assert(t.first() == s[0]);
        assert(t.drop_first() =~= rest.take(r.0));
        assert(t.flatten() == t.first() + t.drop_first().flatten());
        (r.0 + 1, r.1)
    }
}

proof fn lemma_unique_first_member(m: Seq<(Seq<char>, JsonView)>, i: int)
    requires
        0 <= i < m.len(),
        forall|a: int, b: int| 0 <= a < b < m.len() ==> m[a].0 != m[b].0,
    ensures
        first_member(m, m[i].0, 0) == Some(i),
{
    lemma_first_member_props(m, m[i].0, 0);
    match first_member(m, m[i].0, 0) {
        Some(j) => {
            if j < i {
                assert(m[j].0 != m[i].0);
            }
        },
        None => {},
    }
}

/// Every extracted text is found again by following its path: the path
/// starts with the starting path, and the rest of it leads to that very
/// string.
pub proof fn lemma_extracted_path_leads_to_text(
    v: JsonView,
    blacklist: Seq<Seq<char>>,
    path: Seq<PathStep>,
    fields: Option<Seq<Seq<char>>>,
    n: int,
)
    requires
        well_formed(v),
        0 <= n < extract(v, blacklist, path, fields).len(),
    ensures
        ({
            let e = extract(v, blacklist, path, fields)[n];
            &&& path.len() <= e.0.len()
            &&& e.0.take(path.len() as int) == path
            &&& lookup(v, e.0.skip(path.len() as int)) == Some(JsonView::Str(e.1))
        }),
    decreases v,
{
    let e = extract(v, blacklist, path, fields)[n];
    match v {
        JsonView::Object(m) => {
            let parts = object_parts(m, blacklist, path, fields);
            let (i, k) = lemma_flatten_index(parts, n);
            let key = m[i].0;
            let child = m[i].1;
            let p2 = path.push(PathStep::Key(key));
            lemma_unique_first_member(m, i);
            assert(parts[i] == member_entries(key, child, blacklist, path, fields));
            assert(!blacklist.contains(key));
            assert(well_formed(child));
            if fields is Some && fields->0.contains(key) && child is Str {
                assert(e == (p2, child->Str_0));
                let q = e.0.skip(path.len() as int);
                assert(q =~= seq![PathStep::Key(key)]);
                assert(e.0.take(path.len() as int) =~= path);
                assert(q.drop_first() =~= Seq::<PathStep>::empty());
                assert(lookup(v, q) == lookup(child, q.drop_first()));
                assert(child == JsonView::Str(child->Str_0));
            } else {
                assert(e == extract(child, blacklist, p2, fields)[k]);
                lemma_extracted_path_leads_to_text(child, blacklist, p2, fields, k);
                let q = e.0.skip(path.len() as int);
                assert(e.0.take(path.len() as int) =~= p2.take(path.len() as int));
                assert(p2.take(path.len() as int) =~= path);
                assert(q[0] == PathStep::Key(key)) by {
                    assert(e.0.take(p2.len() as int)[path.len() as int] == p2[path.len() as int]);
                }
                assert(q.drop_first() =~= e.0.skip(p2.len() as int));
                assert(lookup(v, q) == lookup(child, q.drop_first()));
            }
        },
        JsonView::Array(a) => {
            let parts = array_parts(a, blacklist, path, fields);
            let (i, k) = lemma_flatten_index(parts, n);
            let p2 = path.push(PathStep::Index(i));
            assert(parts[i] == extract(a[i], blacklist, p2, fields));
            assert(well_formed(a[i]));
            lemma_extracted_path_leads_to_text(a[i], blacklist, p2, fields, k);
            let q = e.0.skip(path.len() as int);
            assert(e.0.take(path.len() as int) =~= p2.take(path.len() as int));
            assert(p2.take(path.len() as int) =~= path);
            assert(q[0] == PathStep::Index(i)) by {
                assert(e.0.take(p2.len() as int)[path.len() as int] == p2[path.len() as int]);
            }
            assert(q.drop_first() =~= e.0.skip(p2.len() as int));
            assert(lookup(v, q) == lookup(a[i], q.drop_first()));
        },
        JsonView::Str(s) => {
            assert(e == (path, s));
            assert(path.take(path.len() as int) =~= path);
            assert(path.skip(path.len() as int) =~= Seq::<PathStep>::empty());
        },
        _ => {},
    }
}

/// Writing an extracted text back at its own path leaves the document
/// unchanged: extraction and write-back agree on where each text lives.
pub proof fn lemma_write_back_extracted_is_identity(
    v: JsonView,
    blacklist: Seq<Seq<char>>,
    fields: Option<Seq<Seq<char>>>,
    n: int,
)
    requires
        well_formed(v),
        0 <= n < extract(v, blacklist, seq![], fields).len(),
    ensures
        update(
            v,
            extract(v, blacklist, seq![], fields)[n].0,
            JsonView::Str(extract(v, blacklist, seq![], fields)[n].1),
        ) == Some(v),
{
    let e = extract(v, blacklist, seq![], fields)[n];
    lemma_extracted_path_leads_to_text(v, blacklist, seq![], fields, n);
    assert(e.0.skip(0) =~= e.0);
    lemma_write_same_is_identity(v, e.0);
}

/// Different extracted texts of a well-formed document sit at different
/// paths.
pub proof fn lemma_extracted_paths_distinct(
    v: JsonView,
    blacklist: Seq<Seq<char>>,
    path: Seq<PathStep>,
    fields: Option<Seq<Seq<char>>>,
)
    requires
        well_formed(v),
    ensures
        forall|a: int, b: int|
            0 <= a < b < extract(v, blacklist, path, fields).len() ==> (#[trigger] extract(
                v,
                blacklist,
                path,
                fields,
            )[a]).0 != (#[trigger] extract(v, blacklist, path, fields)[b]).0,
    decreases v,
{
    let ex = extract(v, blacklist, path, fields);
    match v {
        JsonView::Object(m) => {
            let parts = object_parts(m, blacklist, path, fields);
            assert forall|a: int, b: int| 0 <= a < b < ex.len() implies (#[trigger] ex[a]).0
                != (#[trigger] ex[b]).0 by {
                let (i1, k1) = lemma_flatten_index(parts, a);
                let (i2, k2) = lemma_flatten_index(parts, b);
                let p1 = path.push(PathStep::Key(m[i1].0));
                let p2 = path.push(PathStep::Key(m[i2].0));
                assert(well_formed(m[i1].1));
                assert(well_formed(m[i2].1));
                if i1 == i2 {
                    assert(k1 != k2);
                    if fields is Some && fields->0.contains(m[i1].0) && m[i1].1 is Str {
                        assert(parts[i1].len() == 1);
                    } else {
                        lemma_extracted_paths_distinct(m[i1].1, blacklist, p1, fields);
                        if k1 < k2 {
                            assert(extract(m[i1].1, blacklist, p1, fields)[k1].0 != extract(
                                m[i1].1,
                                blacklist,
                                p1,
                                fields,
                            )[k2].0);
                        } else {
                            assert(extract(m[i1].1, blacklist, p1, fields)[k2].0 != extract(
                                m[i1].1,
                                blacklist,
                                p1,
                                fields,
                            )[k1].0);
                        }
                    }
                } else {
                    assert(m[i1].0 != m[i2].0);
                    let e1 = ex[a];
                    let e2 = ex[b];
                    if fields is Some && fields->0.contains(m[i1].0) && m[i1].1 is Str {
                        assert(e1.0 == p1);
                    } else {
                        lemma_extracted_path_leads_to_text(m[i1].1, blacklist, p1, fields, k1);
                        assert(e1.0.take(p1.len() as int)[path.len() as int] == p1[path.len() as int]);
                    }
                    if fields is Some && fields->0.contains(m[i2].0) && m[i2].1 is Str {
                        assert(e2.0 == p2);
                    } else {
                        lemma_extracted_path_leads_to_text(m[i2].1, blacklist, p2, fields, k2);
                        assert(e2.0.take(p2.len() as int)[path.len() as int] == p2[path.len() as int]);
                    }
                    assert(e1.0[path.len() as int] == PathStep::Key(m[i1].0));
                    assert(e2.0[path.len() as int] == PathStep::Key(m[i2].0));
                }
            }
        },
        JsonView::Array(arr) => {
            let parts = array_parts(arr, blacklist, path, fields);
            assert forall|a: int, b: int| 0 <= a < b < ex.len() implies (#[trigger] ex[a]).0
                != (#[trigger] ex[b]).0 by {
                let (i1, k1) = lemma_flatten_index(parts, a);
                let (i2, k2) = lemma_flatten_index(parts, b);
                let p1 = path.push(PathStep::Index(i1));
                let p2 = path.push(PathStep::Index(i2));
                assert(well_formed(arr[i1]));
                assert(well_formed(arr[i2]));
                if i1 == i2 {
                    lemma_extracted_paths_distinct(arr[i1], blacklist, p1, fields);
                    if k1 < k2 {
                        assert(extract(arr[i1], blacklist, p1, fields)[k1].0 != extract(
                            arr[i1],
                            blacklist,
                            p1,
                            fields,
                        )[k2].0);
                    } else {
                        assert(extract(arr[i1], blacklist, p1, fields)[k2].0 != extract(
                            arr[i1],
                            blacklist,
                            p1,
                            fields,
                        )[k1].0);
                    }
                } else {
                    lemma_extracted_path_leads_to_text(arr[i1], blacklist, p1, fields, k1);
                    lemma_extracted_path_leads_to_text(arr[i2], blacklist, p2, fields, k2);
                    assert(ex[a].0.take(p1.len() as int)[path.len() as int] == p1[path.len() as int]);
                    assert(ex[b].0.take(p2.len() as int)[path.len() as int] == p2[path.len() as int]);
                }
            }
        },
        _ => {},
    }
}

/// Writing into a list of entries at the path of a text extracted from
/// entry `i` (extraction starting at that entry's position): writing the
/// text itself back leaves the list unchanged, and writing any other text
/// `t` succeeds, changes only entry `i`, and puts `t` at that path.
pub proof fn lemma_write_back_in_list(
    list: Seq<JsonView>,
    i: int,
    blacklist: Seq<Seq<char>>,
    fields: Option<Seq<Seq<char>>>,
    n: int,
    t: Seq<char>,
)
    requires
        0 <= i < list.len(),
        well_formed(list[i]),
        0 <= n < extract(list[i], blacklist, seq![PathStep::Index(i)], fields).len(),
    ensures
        ({
            let e = extract(list[i], blacklist, seq![PathStep::Index(i)], fields)[n];
            let inner = e.0.drop_first();
            &&& update_list(list, e.0, JsonView::Str(e.1)) == Some(list)
            &&& update(list[i], inner, JsonView::Str(t)) is Some
            &&& update_list(list, e.0, JsonView::Str(t)) == Some(
                list.update(i, update(list[i], inner, JsonView::Str(t))->0),
            )
            &&& lookup(update(list[i], inner, JsonView::Str(t))->0, inner) == Some(JsonView::Str(t))
        }),
{
    let start = seq![PathStep::Index(i)];
    let e = extract(list[i], blacklist, start, fields)[n];
    lemma_extracted_path_leads_to_text(list[i], blacklist, start, fields, n);
    let inner = e.0.drop_first();
    assert(e.0.skip(1) =~= inner);
    assert(e.0[0] == PathStep::Index(i)) by {
        assert(e.0.take(1)[0] == start[0]);
    }
    lemma_write_same_is_identity(list[i], inner);
    assert(list.update(i, list[i]) =~= list);
    lemma_update_defined(list[i], inner, JsonView::Str(t));
    lemma_read_after_write(list[i], inner, JsonView::Str(t));
}

/// Whether no object in the document repeats a key (see `well_formed`).
#[verifier::loop_isolation(false)]
pub fn is_well_formed(v: &JsonValue) -> (res: bool)
    ensures
        res == well_formed(v.view_of()),
    decreases v,
{
    match v {
        JsonValue::Object(map) => {
            let ghost mv = v.view_of()->Object_0;
            assert(v.view_of() == JsonView::Object(mv));
            let mut i: usize = 0;
            while i < map.len()
                invariant
                    i <= map.len() == mv.len(),
                    mv == v.view_of()->Object_0,
                    forall|a: int, b: int| 0 <= a < b < mv.len() && a < i ==> mv[a].0 != mv[b].0,
                    forall|a: int| 0 <= a < i ==> well_formed(#[trigger] mv[a].1),
                decreases map.len() - i,
            {
                assert(mv[i as int] == (map@[i as int].0@, map@[i as int].1.view_of()));
                if !is_well_formed(&map[i].1) {
                    assert(!well_formed(mv[i as int].1));
                    return false;
                }
                let mut j: usize = i + 1;
                while j < map.len()
                    invariant
                        i < j <= map.len() == mv.len(),
                        mv == v.view_of()->Object_0,
                        forall|b: int| i < b < j ==> mv[i as int].0 != #[trigger] mv[b].0,
                    decreases map.len() - j,
                {
                    assert(mv[j as int].0 == map@[j as int].0@);
                    assert(mv[i as int].0 == map@[i as int].0@);
                    if crate::text::str_eq(map[i].0.as_str(), map[j].0.as_str()) {
                        return false;
                    }
                    j = j + 1;
                }
                i = i + 1;
            }
            true
        },
        JsonValue::Array(list) => {
            let ghost av = v.view_of()->Array_0;
            assert(v.view_of() == JsonView::Array(av));
            let mut i: usize = 0;
            while i < list.len()
                invariant
                    i <= list.len() == av.len(),
                    av == v.view_of()->Array_0,
                    forall|a: int| 0 <= a < i ==> well_formed(#[trigger] av[a]),
                decreases list.len() - i,
            {
                assert(av[i as int] == list@[i as int].view_of());
                if !is_well_formed(&list[i]) {
                    assert(!well_formed(av[i as int]));
                    return false;
                }
                i = i + 1;
            }
            true
        },
        _ => true,
    }
}

} // verus!
