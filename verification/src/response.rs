//! Talking to a translation provider: checking a model slot, building the
//! numbered request text, reading the reply and turning the numbered reply
//! back into one translation per unit.
use vstd::prelude::*;

use crate::batching::{TranslationBatch, TranslationRuntime};
use crate::error::{plain_error, UserFacingError};
use crate::json::{get_member, get_member_ref, JsonNumber, JsonValue, JsonView};
use crate::pattern::{
    capture_groups, compile, groups_view, regex_capture_groups, regex_compiles,
    regex_split_pieces, split_at_matches,
};
use crate::text::{
    append_str, blank, decimal, decimal_seq, is_blank, join, join_seq, lemma_decimal_digits,
    lemma_lines_concat, lemma_lines_first_line, lemma_trim_idempotent, lemma_trim_keeps_first,
    lines, lines_acc, lines_of, owned, parse_usize, parse_usize_seq, plain_digit, str_eq,
    strip_cr, trim, trim_end_seq, trim_seq, trim_start_seq, views, is_white_space,
};

verus! {

// ---------------------------------------------------------------------------
// Requests
// ---------------------------------------------------------------------------

/// The first problem of a model slot that makes a request impossible.
pub open spec fn runtime_problem(rt: TranslationRuntime) -> Option<(Seq<char>, Seq<char>)> {
    if is_blank(rt.api_key@) {
        Some(("Model Config Error"@, "Model '"@ + rt.model@ + "' is missing an API key."@))
    } else if is_blank(rt.base_url@) {
        Some(("Model Config Error"@, "Model '"@ + rt.model@ + "' is missing a base URL."@))
    } else if is_blank(rt.model@) {
        Some(("Model Config Error"@, "The selected model slot does not declare a model id."@))
    } else {
        None
    }
}

/// Checks that a model slot has an API key, a base URL and a model id, in
/// that order.
pub fn check_runtime(rt: &TranslationRuntime) -> (res: Result<(), UserFacingError>)
    ensures
        match runtime_problem(*rt) {
            None => res is Ok,
            Some((t, m)) => res matches Err(e) && e.is(t, m, None),
        },
{
    if blank(rt.api_key.as_str()) {
        let m = crate::text::concat("Model '", rt.model.as_str());
        let m = crate::text::concat(m.as_str(), "' is missing an API key.");
        return Err(plain_error("Model Config Error", m.as_str()));
    }
    if blank(rt.base_url.as_str()) {
        let m = crate::text::concat("Model '", rt.model.as_str());
        let m = crate::text::concat(m.as_str(), "' is missing a base URL.");
        return Err(plain_error("Model Config Error", m.as_str()));
    }
    if blank(rt.model.as_str()) {
        return Err(
            plain_error("Model Config Error", "The selected model slot does not declare a model id."),
        );
    }
    Ok(())
}

/// Text `i` of a batch as the request lists it: its number (from one), a
/// dot, the text and a separator line.
pub open spec fn numbered_entry(i: nat, text: Seq<char>) -> Seq<char> {
    decimal_seq(i + 1) + ". "@ + text + "\n---\n"@
}

/// The user message of a request: every text numbered from one, each
/// followed by a `---` line.
pub open spec fn user_content_spec(texts: Seq<Seq<char>>) -> Seq<char> {
    Seq::new(texts.len(), |i: int| numbered_entry(i as nat, texts[i])).flatten()
}

/// Builds the user message of a request (see `user_content_spec`).
pub fn batch_user_content(texts: &Vec<String>) -> (res: String)
    requires
        texts.len() < usize::MAX,
    ensures
        res@ == user_content_spec(views(texts@)),
{
    let ghost tv = views(texts@);
    let ghost parts = Seq::new(tv.len(), |i: int| numbered_entry(i as nat, tv[i]));
    let mut res = String::new();
    let mut i: usize = 0;
    while i < texts.len()
        invariant
            i <= texts.len() < usize::MAX,
            tv == views(texts@),
            parts == Seq::new(tv.len(), |i: int| numbered_entry(i as nat, tv[i])),
            res@ == parts.take(i as int).flatten(),
        decreases texts.len() - i,
    {
        assert(parts.take(i + 1) =~= parts.take(i as int).push(parts[i as int]));
        proof {
            parts.take(i as int).lemma_flatten_push(parts[i as int]);
        }
        let n = decimal(i + 1);
        append_str(&mut res, n.as_str());
        append_str(&mut res, ". ");
        append_str(&mut res, texts[i].as_str());
        append_str(&mut res, "\n---\n");
        assert(tv[i as int] == texts@[i as int]@);
        i = i + 1;
    }
    assert(parts.take(texts.len() as int) =~= parts);
    res
}

/// The most tokens a request lets the model produce.
pub const MAX_TOKENS: i64 = 8192;

/// A chat message with a role and a content.
pub open spec fn message_view(role: Seq<char>, content: Seq<char>) -> JsonView {
    JsonView::Object(seq![("role"@, JsonView::Str(role)), ("content"@, JsonView::Str(content))])
}

/// The body of a request: the model, the system prompt and the user
/// message, the temperature, the token limit, and the thinking switch when
/// it is on.
pub open spec fn request_body_spec(
    model: Seq<char>,
    prompt: Seq<char>,
    user: Seq<char>,
    temperature: JsonView,
    thinking: bool,
) -> JsonView {
    let members = seq![
        ("model"@, JsonView::Str(model)),
        ("messages"@, JsonView::Array(seq![message_view("system"@, prompt), message_view("user"@, user)])),
        ("temperature"@, temperature),
        ("max_tokens"@, JsonView::Number(Some(MAX_TOKENS), "8192"@)),
    ];
    JsonView::Object(
        if thinking {
            members.push(("thinking"@, JsonView::Bool(true)))
        } else {
            members
        },
    )
}

fn message(role: &str, content: String) -> (res: JsonValue)
    ensures
        res.view_of() == message_view(role@, content@),
{
    let mut members: Vec<(String, JsonValue)> = Vec::new();
    members.push((owned("role"), JsonValue::Str(owned(role))));
    members.push((owned("content"), JsonValue::Str(content)));
    let res = JsonValue::Object(members);
    proof {
        reveal_strlit("role");
        reveal_strlit("content");
        let v = res.view_of()->Object_0;
        assert(v.len() == 2);
        assert(v[0] == (members@[0].0@, members@[0].1.view_of()));
        assert(v[1] == (members@[1].0@, members@[1].1.view_of()));
    }
    assert(res.view_of()->Object_0 =~= message_view(role@, content@)->Object_0);
    res
}

/// Builds the body of the request for a batch (see `request_body_spec`);
/// `temperature` is the model's temperature as a JSON number.
pub fn request_body(batch: &TranslationBatch, temperature: JsonNumber) -> (res: JsonValue)
    requires
        batch.texts.len() < usize::MAX,
    ensures
        res.view_of() == request_body_spec(
            batch.runtime.model@,
            batch.runtime.prompt_text@,
            user_content_spec(views(batch.texts@)),
            JsonValue::Number(temperature).view_of(),
            batch.runtime.enable_thinking,
        ),
{
    let user = batch_user_content(&batch.texts);
    let system_message = message("system", batch.runtime.prompt_text.clone());
    let user_message = message("user", user);
    let ghost sv = system_message.view_of();
    let ghost uv = user_message.view_of();
    let mut list: Vec<JsonValue> = Vec::new();
    list.push(system_message);
    list.push(user_message);
    let messages = JsonValue::Array(list);
    proof {
        let v = messages.view_of()->Array_0;
        assert(v.len() == 2);
        assert(v[0] == list@[0].view_of());
        assert(v[1] == list@[1].view_of());
    }
    assert(messages.view_of()->Array_0 =~= seq![sv, uv]);
    let ghost mv = messages.view_of();
    let ghost tv = JsonValue::Number(temperature).view_of();
    let mut members: Vec<(String, JsonValue)> = Vec::new();
    members.push((owned("model"), JsonValue::Str(batch.runtime.model.clone())));
    members.push((owned("messages"), messages));
    members.push((owned("temperature"), JsonValue::Number(temperature)));
    members.push(
        (
            owned("max_tokens"),
            JsonValue::Number(JsonNumber { int_value: Some(MAX_TOKENS), text: owned("8192") }),
        ),
    );
    if batch.runtime.enable_thinking {
        members.push((owned("thinking"), JsonValue::Bool(true)));
    }
    let res = JsonValue::Object(members);
    proof {
        reveal_strlit("model");
        reveal_strlit("messages");
        reveal_strlit("temperature");
        reveal_strlit("max_tokens");
        reveal_strlit("8192");
        reveal_strlit("thinking");
        reveal_strlit("system");
        reveal_strlit("user");
        let v = res.view_of()->Object_0;
        assert(forall|i: int| 0 <= i < members.len() ==> v[i] == (members@[i].0@, members@[i].1.view_of()));
        assert(v[1].1 == mv);
        assert(v[2].1 == tv);
    }
    assert(res.view_of()->Object_0 =~= request_body_spec(
        batch.runtime.model@,
        batch.runtime.prompt_text@,
        user_content_spec(views(batch.texts@)),
        tv,
        batch.runtime.enable_thinking,
    )->Object_0);
    res
}

// ---------------------------------------------------------------------------
// Replies
// ---------------------------------------------------------------------------

/// The message text of a reply: `choices[0].message.content`, when it is a
/// string.
pub open spec fn reply_content(payload: JsonView) -> Option<Seq<char>> {
    match get_member(payload, "choices"@) {
        Some(JsonView::Array(items)) => if items.len() > 0 {
            match get_member(items[0], "message"@) {
                Some(message) => match get_member(message, "content"@) {
                    Some(JsonView::Str(s)) => Some(s),
                    _ => None,
                },
                None => None,
            }
        } else {
            None
        },
        _ => None,
    }
}

/// Reads `choices[0].message.content` from a reply (see `reply_content`).
pub fn response_content(payload: &JsonValue) -> (res: Option<String>)
    ensures
        match res {
            Some(s) => reply_content(payload.view_of()) == Some(s@),
            None => reply_content(payload.view_of()) is None,
        },
{
    let choices = match get_member_ref(payload, "choices") {
        Some(c) => c,
        None => return None,
    };
    let items = match choices {
        JsonValue::Array(items) => items,
        _ => return None,
    };
    if items.len() == 0 {
        return None;
    }
    assert(choices.view_of()->Array_0[0] == items@[0].view_of());
    let message = match get_member_ref(&items[0], "message") {
        Some(m) => m,
        None => return None,
    };
    match get_member_ref(message, "content") {
        Some(JsonValue::Str(s)) => Some(s.clone()),
        _ => None,
    }
}

/// What the reply parser keeps between lines: the translations found so
/// far (in the order found; a later one for the same index replaces an
/// earlier one), the index of the entry being read, and its lines so far.
pub struct ParseState {
    pub found: Seq<(usize, Seq<char>)>,
    pub current: Option<usize>,
    pub pending: Seq<Seq<char>>,
}

/// Ends the entry being read: its lines, joined and trimmed, become its
/// translation when there are any; the collected lines are dropped only
/// when an entry was being read.
pub open spec fn flush(st: ParseState) -> ParseState {
    match st.current {
        Some(i) => ParseState {
            found: if st.pending.len() > 0 {
                st.found.push((i, trim_seq(join_seq(st.pending, "\n"@))))
            } else {
                st.found
            },
            current: None,
            pending: seq![],
        },
        None => st,
    }
}

/// The entry index a numbered line announces: its number minus one (zero
/// stays zero); none when the number does not fit.
pub open spec fn announced_index(groups: Seq<Option<Seq<char>>>) -> Option<usize> {
    if groups.len() > 1 && groups[1] is Some {
        match parse_usize_seq(groups[1]->0) {
            Some(v) => Some(if v == 0 {
                0usize
            } else {
                (v - 1) as usize
            }),
            None => None,
        }
    } else {
        None
    }
}

/// The text after the number of a numbered line, trimmed, if not empty.
pub open spec fn announced_text(groups: Seq<Option<Seq<char>>>) -> Option<Seq<char>> {
    if groups.len() > 2 && groups[2] is Some && trim_seq(groups[2]->0).len() > 0 {
        Some(trim_seq(groups[2]->0))
    } else {
        None
    }
}

/// One line of a reply: blank lines are skipped, a `---` line ends the
/// entry, a numbered line (`caps` holds its capture groups) ends the entry
/// and starts the next, any other line continues the entry being read.
pub open spec fn parse_step(st: ParseState, line: Seq<char>, caps: Option<Seq<Option<Seq<char>>>>) -> ParseState {
    let t = trim_seq(line);
    if t.len() == 0 {
        st
    } else if t == "---"@ {
        flush(st)
    } else {
        match caps {
            Some(g) => {
                let f = flush(st);
                ParseState {
                    found: f.found,
                    current: announced_index(g),
                    pending: match announced_text(g) {
                        Some(x) => f.pending.push(x),
                        None => f.pending,
                    },
                }
            },
            None => if st.current is Some {
                ParseState { pending: st.pending.push(t), ..st }
            } else {
                st
            },
        }
    }
}

/// The parser's state after the first `n` lines.
pub open spec fn parse_prefix(
    lines: Seq<Seq<char>>,
    caps: Seq<Option<Seq<Option<Seq<char>>>>>,
    n: int,
) -> ParseState
    decreases n,
{
    if n <= 0 {
        ParseState { found: seq![], current: None, pending: seq![] }
    } else {
        parse_step(parse_prefix(lines, caps, n - 1), lines[n - 1], caps[n - 1])
    }
}

/// The translations of a numbered reply, given its lines and, for each
/// line, the capture groups of the numbered-line pattern on the trimmed
/// line.
pub open spec fn parse_lines_spec(lines: Seq<Seq<char>>, caps: Seq<Option<Seq<Option<Seq<char>>>>>) -> Seq<
    (usize, Seq<char>),
> {
    let st = parse_prefix(lines, caps, lines.len() as int);
    match st.current {
        Some(i) => if st.pending.len() > 0 {
            st.found.push((i, trim_seq(join_seq(st.pending, "\n"@))))
        } else {
            st.found
        },
        None => st.found,
    }
}

/// The views of found translations.
pub open spec fn found_view(v: Seq<(usize, String)>) -> Seq<(usize, Seq<char>)> {
    v.map_values(|p: (usize, String)| (p.0, p.1@))
}

/// The views of optional capture groups, line by line.
pub open spec fn caps_view(v: Seq<Option<Vec<Option<String>>>>) -> Seq<Option<Seq<Option<Seq<char>>>>> {
    v.map_values(
        |o: Option<Vec<Option<String>>>|
            match o {
                Some(g) => Some(groups_view(g@)),
                None => None,
            },
    )
}

fn announced_index_exec(groups: &Vec<Option<String>>) -> (res: Option<usize>)
    ensures
        res == announced_index(groups_view(groups@)),
{
    if groups.len() > 1 {
        match &groups[1] {
            Some(d) => match parse_usize(d.as_str()) {
                Some(v) => Some(if v == 0 {
                    0
                } else {
                    v - 1
                }),
                None => None,
            },
            None => None,
        }
    } else {
        None
    }
}

fn announced_text_exec(groups: &Vec<Option<String>>) -> (res: Option<String>)
    ensures
        match res {
            Some(s) => announced_text(groups_view(groups@)) == Some(s@),
            None => announced_text(groups_view(groups@)) is None,
        },
{
    if groups.len() > 2 {
        match &groups[2] {
            Some(t) => {
                let x = trim(t.as_str());
                if x.as_str().is_empty() {
                    None
                } else {
                    Some(x)
                }
            },
            None => None,
        }
    } else {
        None
    }
}

fn flush_exec(found: &mut Vec<(usize, String)>, current: &mut Option<usize>, pending: &mut Vec<String>)
    ensures
        ({
            let st = flush(
                ParseState {
                    found: found_view(old(found)@),
                    current: *old(current),
                    pending: views(old(pending)@),
                },
            );
            &&& found_view(final(found)@) == st.found
            &&& *final(current) == st.current
            &&& views(final(pending)@) == st.pending
        }),
{
    match *current {
        Some(i) => {
            if pending.len() > 0 {
                let joined = join(pending, "\n");
                let text = trim(joined.as_str());
                let ghost before = found@;
                found.push((i, text));
                assert(found_view(found@) =~= found_view(before).push((i, text@)));
            }
            *current = None;
            *pending = Vec::new();
            assert(views(pending@) =~= Seq::<Seq<char>>::empty());
        },
        None => {},
    }
}

/// The translations of a numbered reply (see `parse_lines_spec`).
pub fn parse_numbered_lines(
    lines: &Vec<String>,
    captures: &Vec<Option<Vec<Option<String>>>>,
) -> (res: Vec<(usize, String)>)
    requires
        captures.len() == lines.len(),
    ensures
        found_view(res@) == parse_lines_spec(views(lines@), caps_view(captures@)),
{
    let ghost lv = views(lines@);
    let ghost cv = caps_view(captures@);
    let mut found: Vec<(usize, String)> = Vec::new();
    let mut current: Option<usize> = None;
    let mut pending: Vec<String> = Vec::new();
    let mut i: usize = 0;
    assert(found_view(found@) =~= Seq::<(usize, Seq<char>)>::empty());
    assert(views(pending@) =~= Seq::<Seq<char>>::empty());
    while i < lines.len()
        invariant
            i <= lines.len() == captures.len(),
            lv == views(lines@),
            cv == caps_view(captures@),
            parse_prefix(lv, cv, i as int) == (ParseState {
                found: found_view(found@),
                current: current,
                pending: views(pending@),
            }),
        decreases lines.len() - i,
    {
        let line = trim(lines[i].as_str());
        assert(lv[i as int] == lines@[i as int]@);
        if line.as_str().is_empty() {
        } else if str_eq(line.as_str(), "---") {
            flush_exec(&mut found, &mut current, &mut pending);
        } else {
            match &captures[i] {
                Some(groups) => {
                    assert(cv[i as int] == Some(groups_view(groups@)));
                    flush_exec(&mut found, &mut current, &mut pending);
                    current = announced_index_exec(groups);
                    match announced_text_exec(groups) {
                        Some(x) => {
                            let ghost before = pending@;
                            pending.push(x);
                            assert(views(pending@) =~= views(before).push(x@));
                        },
                        None => {},
                    }
                },
                None => {
                    assert(cv[i as int] is None);
                    if current.is_some() {
                        let ghost before = pending@;
                        pending.push(line);
                        assert(views(pending@) =~= views(before).push(trim_seq(lv[i as int])));
                    }
                },
            }
        }
        i = i + 1;
    }
    match current {
        Some(idx) => {
            if pending.len() > 0 {
                let joined = join(&pending, "\n");
                let text = trim(joined.as_str());
                let ghost before = found@;
                found.push((idx, text));
                assert(found_view(found@) =~= found_view(before).push((idx, text@)));
            }
        },
        None => {},
    }
    found
}

/// The pattern of the reasoning block that some models put before their
/// answer.
pub const THINKING_PATTERN: &'static str = "(?s)<thinking>.*?</thinking>";

/// The pattern of a numbered line: digits, one of `.`, `)`, a fullwidth
/// parenthesis, an ideographic comma or whitespace, then the text.
pub const NUMBERED_LINE_PATTERN: &'static str = "^(\\d+)[\\.\\)\u{ff09}\u{3001}\\s]\\s*(.*)?$";

/// A reply with its reasoning blocks removed (the reply itself when the
/// pattern does not compile).
pub open spec fn without_thinking(response: Seq<char>) -> Seq<char> {
    if regex_compiles(THINKING_PATTERN@) {
        regex_split_pieces(THINKING_PATTERN@, response).flatten()
    } else {
        response
    }
}

/// The capture groups of the numbered-line pattern on each trimmed line
/// (none for every line when the pattern does not compile).
pub open spec fn line_captures(lines: Seq<Seq<char>>) -> Seq<Option<Seq<Option<Seq<char>>>>> {
    Seq::new(
        lines.len(),
        |i: int|
            if regex_compiles(NUMBERED_LINE_PATTERN@) {
                regex_capture_groups(NUMBERED_LINE_PATTERN@, trim_seq(lines[i]))
            } else {
                None
            },
    )
}

/// The translations in a provider's reply: reasoning blocks are removed,
/// then the numbered entries are read line by line.
pub open spec fn parse_translations_spec(response: Seq<char>) -> Seq<(usize, Seq<char>)> {
    let ls = lines_of(without_thinking(response));
    parse_lines_spec(ls, line_captures(ls))
}

fn concat_all(pieces: &Vec<String>) -> (res: String)
    ensures
        res@ == views(pieces@).flatten(),
{
    let mut res = String::new();
    let mut i: usize = 0;
    while i < pieces.len()
        invariant
            i <= pieces.len(),
            res@ == views(pieces@).take(i as int).flatten(),
        decreases pieces.len() - i,
    {
        assert(views(pieces@).take(i + 1) =~= views(pieces@).take(i as int).push(
            pieces@[i as int]@,
        ));
        proof {
            views(pieces@).take(i as int).lemma_flatten_push(pieces@[i as int]@);
        }
        append_str(&mut res, pieces[i].as_str());
        i = i + 1;
    }
    assert(views(pieces@).take(pieces.len() as int) =~= views(pieces@));
    res
}

/// Reads the numbered translations of a provider's reply (see
/// `parse_translations_spec`).
pub fn parse_translations(response: &str) -> (res: Vec<(usize, String)>)
    ensures
        found_view(res@) == parse_translations_spec(response@),
{
    let cleaned = match compile(THINKING_PATTERN) {
        Some(re) => {
            let pieces = split_at_matches(&re, response);
            concat_all(&pieces)
        },
        None => owned(response),
    };
    let ls = lines(cleaned.as_str());
    let line_re = compile(NUMBERED_LINE_PATTERN);
    let mut caps: Vec<Option<Vec<Option<String>>>> = Vec::new();
    let ghost target = line_captures(views(ls@));
    let mut i: usize = 0;
    while i < ls.len()
        invariant
            i <= ls.len(),
            target == line_captures(views(ls@)),
            line_re is Some <==> regex_compiles(NUMBERED_LINE_PATTERN@),
            line_re matches Some(c) ==> c.source() == NUMBERED_LINE_PATTERN@,
            caps_view(caps@) == target.take(i as int),
        decreases ls.len() - i,
    {
        let trimmed = trim(ls[i].as_str());
        assert(views(ls@)[i as int] == ls@[i as int]@);
        let c = match &line_re {
            Some(re) => capture_groups(re, trimmed.as_str()),
            None => None,
        };
        let ghost before = caps@;
        caps.push(c);
        assert(caps_view(caps@) =~= caps_view(before).push(target[i as int]));
        i = i + 1;
    }
    assert(target.take(ls.len() as int) =~= target);
    parse_numbered_lines(&ls, &caps)
}

// ---------------------------------------------------------------------------
// Per-unit results
// ---------------------------------------------------------------------------

/// The text found for `key`: the last one recorded for it.
pub open spec fn found_lookup(found: Seq<(usize, Seq<char>)>, key: usize) -> Option<Seq<char>>
    decreases found.len(),
{
    if found.len() == 0 {
        None
    } else if found.last().0 == key {
        Some(found.last().1)
    } else {
        found_lookup(found.drop_last(), key)
    }
}

/// Finds the text recorded for `key` (the last one recorded for it).
pub fn lookup_found(found: &Vec<(usize, String)>, key: usize) -> (res: Option<String>)
    ensures
        match res {
            Some(s) => found_lookup(found_view(found@), key) == Some(s@),
            None => found_lookup(found_view(found@), key) is None,
        },
{
    let ghost fv = found_view(found@);
    let mut i: usize = found.len();
    assert(fv.take(fv.len() as int) =~= fv);
    while i > 0
        invariant
            i <= found.len(),
            fv == found_view(found@),
            found_lookup(fv, key) == found_lookup(fv.take(i as int), key),
        decreases i,
    {
        let ghost pre = fv.take(i as int);
        assert(pre.last() == (found@[i - 1].0, found@[i - 1].1@));
        assert(pre.drop_last() =~= fv.take(i - 1));
        if found[i - 1].0 == key {
            return Some(found[i - 1].1.clone());
        }
        i = i - 1;
    }
    None
}

/// The translation of each unit of a batch: the reply's entry at the unit's
/// position in the batch, or the unit's own text when the reply has none.
pub open spec fn batch_results_spec(
    unit_indices: Seq<usize>,
    texts: Seq<Seq<char>>,
    found: Seq<(usize, Seq<char>)>,
) -> Seq<(usize, Seq<char>)> {
    Seq::new(
        unit_indices.len(),
        |i: int|
            (
                unit_indices[i],
                match found_lookup(found, i as usize) {
                    Some(t) => t,
                    None => texts[i],
                },
            ),
    )
}

/// Pairs each unit of a batch with its translation (see
/// `batch_results_spec`).
pub fn batch_translations(batch: &TranslationBatch, found: &Vec<(usize, String)>) -> (res: Vec<
    (usize, String),
>)
    requires
        batch.texts.len() >= batch.unit_indices.len(),
    ensures
        found_view(res@) == batch_results_spec(
            batch.unit_indices@,
            views(batch.texts@),
            found_view(found@),
        ),
{
    let ghost target = batch_results_spec(
        batch.unit_indices@,
        views(batch.texts@),
        found_view(found@),
    );
    let mut res: Vec<(usize, String)> = Vec::new();
    let mut i: usize = 0;
    while i < batch.unit_indices.len()
        invariant
            i <= batch.unit_indices.len() <= batch.texts.len(),
            target == batch_results_spec(
                batch.unit_indices@,
                views(batch.texts@),
                found_view(found@),
            ),
            found_view(res@) == target.take(i as int),
        decreases batch.unit_indices.len() - i,
    {
        let text = match lookup_found(found, i) {
            Some(t) => t,
            None => batch.texts[i].clone(),
        };
        let ghost before = res@;
        assert(views(batch.texts@)[i as int] == batch.texts@[i as int]@);
        assert(target[i as int].1 == text@);
        res.push((batch.unit_indices[i], text));
        assert(found_view(res@) =~= found_view(before).push(target[i as int]));
        assert(target.take(i + 1) =~= target.take(i as int).push(target[i as int]));
        i = i + 1;
    }
    assert(target.take(batch.unit_indices.len() as int) =~= target);
    res
}

/// What a successful request for a batch gives: each unit's translation
/// and how many attempts it took.
#[derive(Debug, Clone)]
pub struct BatchExecutionResult {
    pub translations: Vec<(usize, String)>,
    pub attempts: usize,
}

/// The result of a batch whose reply, at attempt `attempt` (counted from
/// zero), gave the entries `found` (see `batch_translations`).
pub fn batch_result(batch: &TranslationBatch, found: &Vec<(usize, String)>, attempt: usize) -> (res:
    BatchExecutionResult)
    requires
        batch.texts.len() >= batch.unit_indices.len(),
        attempt < usize::MAX,
    ensures
        found_view(res.translations@) == batch_results_spec(
            batch.unit_indices@,
            views(batch.texts@),
            found_view(found@),
        ),
        res.attempts == attempt + 1,
{
    BatchExecutionResult { translations: batch_translations(batch, found), attempts: attempt + 1 }
}

/// The translations used when a batch fails: every unit keeps its own
/// text.
pub fn fallback_translations(batch: &TranslationBatch) -> (res: Vec<(usize, String)>)
    requires
        batch.texts.len() >= batch.unit_indices.len(),
    ensures
        found_view(res@) == batch_results_spec(
            batch.unit_indices@,
            views(batch.texts@),
            Seq::empty(),
        ),
{
    let none: Vec<(usize, String)> = Vec::new();
    assert(found_view(none@) =~= Seq::<(usize, Seq<char>)>::empty());
    batch_translations(batch, &none)
}

// ---------------------------------------------------------------------------
// Errors and retries
// ---------------------------------------------------------------------------

/// The provider answered a batch with an error status.
pub fn rejected_batch_error(batch_index: usize, model: &str, details: &str) -> (res: UserFacingError)
    requires
        batch_index < usize::MAX,
    ensures
        res.is(
            "Translation Request Failed"@,
            "The provider rejected batch "@ + decimal_seq(batch_index as nat + 1) + " for model '"@
                + model@ + "'."@,
            Some(details@),
        ),
{
    let n = decimal(batch_index + 1);
    let m = crate::text::concat("The provider rejected batch ", n.as_str());
    let m = crate::text::concat(m.as_str(), " for model '");
    let m = crate::text::concat(m.as_str(), model);
    let m = crate::text::concat(m.as_str(), "'.");
    UserFacingError::new(owned("Translation Request Failed"), m, Some(owned(details)))
}

/// A request for a batch could not be sent or answered.
pub fn attempt_failed_error(batch_index: usize, model: &str, attempt: usize, details: &str) -> (res:
    UserFacingError)
    requires
        batch_index < usize::MAX,
        attempt < usize::MAX,
    ensures
        res.is(
            "Translation Request Failed"@,
            "Batch "@ + decimal_seq(batch_index as nat + 1) + " for model '"@ + model@
                + "' failed after request attempt "@ + decimal_seq(attempt as nat + 1) + "."@,
            Some(details@),
        ),
{
    let n = decimal(batch_index + 1);
    let a = decimal(attempt + 1);
    let m = crate::text::concat("Batch ", n.as_str());
    let m = crate::text::concat(m.as_str(), " for model '");
    let m = crate::text::concat(m.as_str(), model);
    let m = crate::text::concat(m.as_str(), "' failed after request attempt ");
    let m = crate::text::concat(m.as_str(), a.as_str());
    let m = crate::text::concat(m.as_str(), ".");
    UserFacingError::new(owned("Translation Request Failed"), m, Some(owned(details)))
}

/// The reply body was not JSON.
pub fn unreadable_reply_error(details: &str) -> (res: UserFacingError)
    ensures
        res.is(
            "Translation Response Error"@,
            "The provider returned an unreadable JSON payload."@,
            Some(details@),
        ),
{
    UserFacingError::new(
        owned("Translation Response Error"),
        owned("The provider returned an unreadable JSON payload."),
        Some(owned(details)),
    )
}

/// The reply has no `choices[0].message.content`.
pub fn missing_content_error(payload_text: &str) -> (res: UserFacingError)
    ensures
        res.is(
            "Translation Response Error"@,
            "The provider response did not include choices[0].message.content."@,
            Some(payload_text@),
        ),
{
    UserFacingError::new(
        owned("Translation Response Error"),
        owned("The provider response did not include choices[0].message.content."),
        Some(owned(payload_text)),
    )
}

/// The error reported when every attempt failed without a recorded cause.
pub fn unknown_request_error() -> (res: UserFacingError)
    ensures
        res.is(
            "Translation Request Failed"@,
            "The provider request failed for an unknown reason."@,
            None,
        ),
{
    plain_error("Translation Request Failed", "The provider request failed for an unknown reason.")
}

/// After a failed attempt: the next attempt's number while retries remain
/// (attempts are numbered from zero, and there are `max_retries + 1` of
/// them), none when the batch has used them all.
pub fn next_attempt(attempt: usize, max_retries: usize) -> (res: Option<usize>)
    ensures
        attempt < max_retries ==> res == Some((attempt + 1) as usize),
        attempt >= max_retries ==> res is None,
{
    if attempt < max_retries {
        Some(attempt + 1)
    } else {
        None
    }
}

// ---------------------------------------------------------------------------
// Reading back a request
// ---------------------------------------------------------------------------

/// A text may stand on one line of a request: it holds no line break.
pub open spec fn one_line(t: Seq<char>) -> bool {
    forall|k: int| 0 <= k < t.len() ==> t[k] != '\n' && t[k] != '\r'
}

/// Line `i` of a request, before its separator: the number and the text.
pub open spec fn numbered_line(i: nat, t: Seq<char>) -> Seq<char> {
    decimal_seq(i + 1) + ". "@ + t
}

/// The lines of the user message of a request: each numbered text followed
/// by a `---` line.
pub open spec fn message_lines(texts: Seq<Seq<char>>) -> Seq<Seq<char>>
    decreases texts.len(),
{
    if texts.len() == 0 {
        seq![]
    } else {
        message_lines(texts.drop_last()).push(
            numbered_line((texts.len() - 1) as nat, texts.last()),
        ).push("---"@)
    }
}

/// The translations that reading back a request would give: each text,
/// trimmed, under its position.
pub open spec fn texts_read_back(texts: Seq<Seq<char>>) -> Seq<(usize, Seq<char>)> {
    Seq::new(texts.len(), |i: int| (i as usize, trim_seq(texts[i])))
}

proof fn lemma_numbered_line_facts(i: nat, t: Seq<char>)
    requires
        one_line(t),
    ensures
        numbered_line(i, t).len() > 0,
        !is_white_space(numbered_line(i, t)[0]),
        numbered_line(i, t)[0] != '-',
        forall|k: int| 0 <= k < numbered_line(i, t).len() ==> #[trigger] numbered_line(i, t)[k]
            != '\n',
        numbered_line(i, t).last() != '\r',
{
    reveal_strlit(". ");
    let d = decimal_seq(i + 1);
    lemma_decimal_digits(i + 1);
    let n = numbered_line(i, t);
    assert(". "@ =~= seq!['.', ' ']);
    assert(n[0] == d[0]);
    assert(plain_digit(d[0]));
    assert forall|k: int| 0 <= k < n.len() implies #[trigger] n[k] != '\n' by {
        if k < d.len() {
            assert(n[k] == d[k]);
            assert(plain_digit(d[k]));
        } else if k < d.len() + 2 {
        } else {
            assert(n[k] == t[k - d.len() - 2]);
        }
    }
    if t.len() > 0 {
        assert(n.last() == t.last());
    } else {
        assert(n.last() == ' ');
    }
}

proof fn lemma_user_content_push(texts: Seq<Seq<char>>, t: Seq<char>)
    ensures
        user_content_spec(texts.push(t)) == user_content_spec(texts) + numbered_entry(
            texts.len(),
            t,
        ),
{
    let all = texts.push(t);
    let f = |i: int| numbered_entry(i as nat, all[i]);
    let g = |i: int| numbered_entry(i as nat, texts[i]);
    assert(Seq::new(all.len(), f) =~= Seq::new(texts.len(), g).push(numbered_entry(texts.len(), t)));
    Seq::new(texts.len(), g).lemma_flatten_push(numbered_entry(texts.len(), t));
}

/// The user message of a request splits into the numbered lines and the
/// `---` lines between them.
pub proof fn lemma_message_lines(texts: Seq<Seq<char>>)
    requires
        forall|i: int| 0 <= i < texts.len() ==> one_line(#[trigger] texts[i]),
    ensures
        lines_of(user_content_spec(texts)) == message_lines(texts),
        texts.len() > 0 ==> user_content_spec(texts).len() > 0 && user_content_spec(texts).last()
            == '\n',
    decreases texts.len(),
{
    reveal_strlit("\n---\n");
    reveal_strlit("---");
    if texts.len() == 0 {
        assert(user_content_spec(texts) =~= Seq::<char>::empty());
    } else {
        let pre = texts.drop_last();
        let t = texts.last();
        let i = (texts.len() - 1) as nat;
        assert(pre.push(t) =~= texts);
        lemma_message_lines(pre);
        lemma_user_content_push(pre, t);
        assert(one_line(t));
        lemma_numbered_line_facts(i, t);
        let nl = numbered_line(i, t);
        let e = numbered_entry(i, t);
        let dashes = "---"@;
        assert("\n---\n"@ =~= seq!['\n'] + dashes + seq!['\n']);
        assert(e =~= nl + seq!['\n'] + (dashes + seq!['\n']));
        lemma_lines_first_line(nl, dashes + seq!['\n'], seq![]);
        assert(Seq::<char>::empty() + nl =~= nl);
        assert(strip_cr(nl) == nl);
        assert(dashes + seq!['\n'] =~= dashes + seq!['\n'] + Seq::<char>::empty());
        lemma_lines_first_line(dashes, Seq::<char>::empty(), seq![]);
        assert(Seq::<char>::empty() + dashes =~= dashes);
        assert(strip_cr(dashes) == dashes);
        assert(lines_acc(Seq::<char>::empty(), seq![]) =~= Seq::<Seq<char>>::empty());
        assert(lines_acc(e, seq![]) =~= seq![nl, dashes]);
        if pre.len() == 0 {
            assert(user_content_spec(pre) =~= Seq::<char>::empty());
            assert(user_content_spec(texts) =~= e);
        } else {
            lemma_lines_concat(user_content_spec(pre), e, seq![]);
        }
        assert(message_lines(texts) =~= message_lines(pre) + seq![nl, dashes]);
        assert(user_content_spec(texts).last() == e.last());
    }
}

proof fn lemma_message_lines_at(texts: Seq<Seq<char>>)
    ensures
        message_lines(texts).len() == 2 * texts.len(),
        forall|k: int|
            0 <= k < texts.len() ==> message_lines(texts)[2 * k] == numbered_line(
                k as nat,
                #[trigger] texts[k],
            ) && message_lines(texts)[2 * k + 1] == "---"@,
    decreases texts.len(),
{
    if texts.len() > 0 {
        let pre = texts.drop_last();
        lemma_message_lines_at(pre);
        assert forall|k: int| 0 <= k < texts.len() implies message_lines(texts)[2 * k]
            == numbered_line(k as nat, #[trigger] texts[k]) && message_lines(texts)[2 * k + 1]
            == "---"@ by {
            if k < pre.len() {
                assert(texts[k] == pre[k]);
            }
        }
    }
}

proof fn lemma_read_back_prefix(
    texts: Seq<Seq<char>>,
    caps: Seq<Option<Seq<Option<Seq<char>>>>>,
    k: int,
)
    requires
        0 <= k <= texts.len() < usize::MAX,
        forall|i: int| 0 <= i < texts.len() ==> one_line(#[trigger] texts[i]),
        caps.len() == 2 * texts.len(),
        forall|i: int|
            0 <= i < texts.len() ==> (#[trigger] caps[2 * i] matches Some(g) && announced_index(g)
                == Some(i as usize) && announced_text(g) == Some(trim_seq(texts[i]))),
    ensures
        parse_prefix(message_lines(texts), caps, 2 * k) == (ParseState {
            found: texts_read_back(texts).take(k),
            current: None,
            pending: seq![],
        }),
    decreases k,
{
    let ls = message_lines(texts);
    let want = texts_read_back(texts);
    if k == 0 {
        assert(want.take(0) =~= Seq::<(usize, Seq<char>)>::empty());
    } else {
        let j = k - 1;
        lemma_read_back_prefix(texts, caps, j);
        lemma_message_lines_at(texts);
        reveal_strlit("---");
        reveal_strlit("\n");
        let dashes = "---"@;
        assert(dashes =~= seq!['-', '-', '-']);
        assert(!is_white_space('-'));
        assert(trim_start_seq(dashes) == dashes);
        assert(trim_end_seq(dashes) == dashes);
        let t = texts[j];
        let nl = numbered_line(j as nat, t);
        assert(ls[2 * j] == nl);
        assert(ls[2 * j + 1] == dashes);
        lemma_numbered_line_facts(j as nat, t);
        lemma_trim_keeps_first(nl);
        assert(trim_seq(nl) != dashes) by {
            assert(trim_seq(nl)[0] != dashes[0]);
        }
        assert(caps[2 * j] is Some);
        let g = caps[2 * j]->Some_0;
        let mid = parse_prefix(ls, caps, 2 * j + 1);
        assert(mid == ParseState {
            found: want.take(j),
            current: Some(j as usize),
            pending: seq![trim_seq(t)],
        });
        lemma_trim_idempotent(t);
        assert(join_seq(seq![trim_seq(t)], "\n"@) == trim_seq(t));
        assert(want.take(k) =~= want.take(j).push((j as usize, trim_seq(t))));
    }
}

/// Reading back the lines of a request gives every text, trimmed, under
/// its position, when the numbered-line pattern reads each numbered line as
/// announcing that position and that text (`caps` holds what the pattern
/// captured on each line).
pub proof fn lemma_message_lines_read_back(
    texts: Seq<Seq<char>>,
    caps: Seq<Option<Seq<Option<Seq<char>>>>>,
)
    requires
        texts.len() < usize::MAX,
        forall|i: int| 0 <= i < texts.len() ==> one_line(#[trigger] texts[i]),
        caps.len() == 2 * texts.len(),
        forall|i: int|
            0 <= i < texts.len() ==> (#[trigger] caps[2 * i] matches Some(g) && announced_index(g)
                == Some(i as usize) && announced_text(g) == Some(trim_seq(texts[i]))),
    ensures
        parse_lines_spec(message_lines(texts), caps) == texts_read_back(texts),
{
    lemma_message_lines_at(texts);
    lemma_read_back_prefix(texts, caps, texts.len() as int);
    assert(texts_read_back(texts).take(texts.len() as int) =~= texts_read_back(texts));
}

/// Parsing the user message of a request gives back every text, trimmed,
/// under its position: for texts on one line, as far as the reasoning-block
/// pattern leaves the message alone and the numbered-line pattern reads
/// each numbered line as announcing its position and its text.
pub proof fn lemma_user_message_parses_back(texts: Seq<Seq<char>>)
    requires
        texts.len() < usize::MAX,
        forall|i: int| 0 <= i < texts.len() ==> one_line(#[trigger] texts[i]),
        without_thinking(user_content_spec(texts)) == user_content_spec(texts),
        forall|i: int|
            0 <= i < texts.len() ==> (#[trigger] line_captures(message_lines(texts))[2 * i] matches Some(
                g,
            ) && announced_index(g) == Some(i as usize) && announced_text(g) == Some(
                trim_seq(texts[i]),
            )),
    ensures
        parse_translations_spec(user_content_spec(texts)) == texts_read_back(texts),
{
    lemma_message_lines(texts);
    lemma_message_lines_at(texts);
    lemma_message_lines_read_back(texts, line_captures(message_lines(texts)));
}

/// A reply made only of numbered lines, one per text, without separators.
pub open spec fn numbered_lines(texts: Seq<Seq<char>>) -> Seq<Seq<char>> {
    Seq::new(texts.len(), |i: int| numbered_line(i as nat, texts[i]))
}

proof fn lemma_numbered_prefix(
    texts: Seq<Seq<char>>,
    caps: Seq<Option<Seq<Option<Seq<char>>>>>,
    k: int,
)
    requires
        1 <= k <= texts.len() < usize::MAX,
        forall|i: int| 0 <= i < texts.len() ==> one_line(#[trigger] texts[i]),
        caps.len() == texts.len(),
        forall|i: int|
            0 <= i < texts.len() ==> (#[trigger] caps[i] matches Some(g) && announced_index(g)
                == Some(i as usize) && announced_text(g) == Some(trim_seq(texts[i]))),
    ensures
        parse_prefix(numbered_lines(texts), caps, k) == (ParseState {
            found: texts_read_back(texts).take(k - 1),
            current: Some((k - 1) as usize),
            pending: seq![trim_seq(texts[k - 1])],
        }),
    decreases k,
{
    let ls = numbered_lines(texts);
    let want = texts_read_back(texts);
    let j = k - 1;
    let t = texts[j];
    let nl = numbered_line(j as nat, t);
    assert(ls[j] == nl);
    reveal_strlit("---");
    let dashes = "---"@;
    assert(dashes =~= seq!['-', '-', '-']);
    lemma_numbered_line_facts(j as nat, t);
    lemma_trim_keeps_first(nl);
    assert(trim_seq(nl) != dashes) by {
        assert(trim_seq(nl)[0] != dashes[0]);
    }
    assert(caps[j] is Some);
    if k == 1 {
        assert(parse_prefix(ls, caps, 0) == ParseState {
            found: Seq::<(usize, Seq<char>)>::empty(),
            current: None,
            pending: Seq::<Seq<char>>::empty(),
        });
        assert(want.take(0) =~= Seq::<(usize, Seq<char>)>::empty());
    } else {
        lemma_numbered_prefix(texts, caps, k - 1);
        let p = texts[j - 1];
        lemma_trim_idempotent(p);
        reveal_strlit("\n");
        assert(join_seq(seq![trim_seq(p)], "\n"@) == trim_seq(p));
        assert(want.take(j) =~= want.take(j - 1).push(((j - 1) as usize, trim_seq(p))));
    }
}

/// A numbered line ends the entry being read: a reply made only of
/// numbered lines (one per text, no separators) gives every text, trimmed,
/// under its position, when the numbered-line pattern reads each line as
/// announcing that position and that text (`caps` holds what it captured).
pub proof fn lemma_numbered_lines_read_back(
    texts: Seq<Seq<char>>,
    caps: Seq<Option<Seq<Option<Seq<char>>>>>,
)
    requires
        texts.len() < usize::MAX,
        forall|i: int| 0 <= i < texts.len() ==> one_line(#[trigger] texts[i]),
        caps.len() == texts.len(),
        forall|i: int|
            0 <= i < texts.len() ==> (#[trigger] caps[i] matches Some(g) && announced_index(g)
                == Some(i as usize) && announced_text(g) == Some(trim_seq(texts[i]))),
    ensures
        parse_lines_spec(numbered_lines(texts), caps) == texts_read_back(texts),
{
    let want = texts_read_back(texts);
    let n = texts.len() as int;
    if n == 0 {
        assert(want =~= Seq::<(usize, Seq<char>)>::empty());
    } else {
        lemma_numbered_prefix(texts, caps, n);
        let p = texts[n - 1];
        lemma_trim_idempotent(p);
        reveal_strlit("\n");
        assert(join_seq(seq![trim_seq(p)], "\n"@) == trim_seq(p));
        assert(want =~= want.take(n - 1).push(((n - 1) as usize, trim_seq(p))));
    }
}

} // verus!
