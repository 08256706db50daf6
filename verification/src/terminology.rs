//! Fixed term translations applied to a text before it is sent for
//! translation: every occurrence of a source term is replaced by its fixed
//! translation, longer terms first.
use vstd::prelude::*;

use crate::models::terms_view;
use crate::pattern::{
    compile, escape, escaped, find_matches, regex_compiles, regex_found, regex_split_pieces,
    split_at_matches,
};
use crate::sorting::{insert_sorted, lemma_insert_sorted_at, stable_sort};
use crate::text::{append_str, join, join_seq, owned, str_eq, views};

verus! {

/// The translation of the first pair whose source is `key`.
pub open spec fn term_lookup(terms: Seq<(Seq<char>, Seq<char>)>, key: Seq<char>) -> Option<
    Seq<char>,
>
    decreases terms.len(),
{
    if terms.len() == 0 {
        None
    } else if terms[0].0 == key {
        Some(terms[0].1)
    } else {
        term_lookup(terms.drop_first(), key)
    }
}

/// What a matched term becomes: its fixed translation, or itself when the
/// dictionary has no entry for it.
pub open spec fn term_or_self(terms: Seq<(Seq<char>, Seq<char>)>, found: Seq<char>) -> Seq<char> {
    match term_lookup(terms, found) {
        Some(t) => t,
        None => found,
    }
}

/// Longer texts (in UTF-8 bytes) first.
pub open spec fn longer_first() -> spec_fn(Seq<char>, Seq<char>) -> bool {
    |a: Seq<char>, b: Seq<char>|
        vstd::utf8::encode_utf8(b).len() <= vstd::utf8::encode_utf8(a).len()
}

/// The source terms, longest first; terms of equal length keep the
/// dictionary's order.
pub open spec fn sources_longest_first(terms: Seq<(Seq<char>, Seq<char>)>) -> Seq<Seq<char>> {
    stable_sort(terms.map_values(|p: (Seq<char>, Seq<char>)| p.0), longer_first())
}

/// The alternation of all escaped source terms, longest first.
pub open spec fn terminology_pattern(terms: Seq<(Seq<char>, Seq<char>)>) -> Seq<char> {
    join_seq(sources_longest_first(terms).map_values(|s: Seq<char>| escaped(s)), "|"@)
}

/// Piece `i` of a split text followed by the replacement of the match that
/// ended it (the last piece is followed by nothing).
pub open spec fn piece_with_replacement(
    pieces: Seq<Seq<char>>,
    replacements: Seq<Seq<char>>,
    i: int,
) -> Seq<char> {
    if i + 1 < pieces.len() && i < replacements.len() {
        pieces[i] + replacements[i]
    } else {
        pieces[i]
    }
}

/// The pieces between matches with the matches' replacements put back in
/// between.
pub open spec fn interleave(pieces: Seq<Seq<char>>, replacements: Seq<Seq<char>>) -> Seq<char> {
    Seq::new(pieces.len(), |i: int| piece_with_replacement(pieces, replacements, i)).flatten()
}

/// The text after replacing every match of the terminology pattern by its
/// fixed translation, given the pieces between matches and the matches.
pub open spec fn replaced_text(
    pieces: Seq<Seq<char>>,
    found: Seq<Seq<char>>,
    terms: Seq<(Seq<char>, Seq<char>)>,
) -> Seq<char> {
    interleave(pieces, found.map_values(|m: Seq<char>| term_or_self(terms, m)))
}

/// What applying a dictionary to a text gives: the text itself when the
/// text or the dictionary is empty, when the pattern is empty, or when the
/// pattern does not compile; otherwise every match of the alternation of
/// the source terms (longest first) replaced by its translation.
pub open spec fn apply_terminology_spec(text: Seq<char>, terms: Seq<(Seq<char>, Seq<char>)>) -> Seq<
    char,
> {
    if text.len() == 0 || terms.len() == 0 {
        text
    } else {
        let p = terminology_pattern(terms);
        if p.len() == 0 || !regex_compiles(p) {
            text
        } else {
            replaced_text(regex_split_pieces(p, text), regex_found(p, text), terms)
        }
    }
}

/// Looks up the fixed translation of a source term.
pub fn lookup_term(terms: &Vec<(String, String)>, key: &str) -> (res: Option<String>)
    ensures
        match res {
            Some(t) => term_lookup(terms_view(terms@), key@) == Some(t@),
            None => term_lookup(terms_view(terms@), key@) is None,
        },
{
    let ghost tv = terms_view(terms@);
    let mut i: usize = 0;
    assert(tv.skip(0) =~= tv);
    while i < terms.len()
        invariant
            i <= terms.len(),
            tv == terms_view(terms@),
            term_lookup(tv, key@) == term_lookup(tv.skip(i as int), key@),
        decreases terms.len() - i,
    {
        let ghost rest = tv.skip(i as int);
        assert(rest[0] == (terms@[i as int].0@, terms@[i as int].1@));
        assert(rest.drop_first() =~= tv.skip(i + 1));
        if str_eq(terms[i].0.as_str(), key) {
            return Some(terms[i].1.clone());
        }
        i = i + 1;
    }
    None
}

/// Puts the matches' replacements back between the pieces of a split text
/// (see `replaced_text`).
pub fn replace_terms(pieces: &Vec<String>, found: &Vec<String>, terms: &Vec<(String, String)>) -> (res:
    String)
    ensures
        res@ == replaced_text(views(pieces@), views(found@), terms_view(terms@)),
{
    let ghost ps = views(pieces@);
    let ghost reps = views(found@).map_values(|m: Seq<char>| term_or_self(terms_view(terms@), m));
    let ghost parts = Seq::new(ps.len(), |i: int| piece_with_replacement(ps, reps, i));
    let mut res = String::new();
    let mut i: usize = 0;
    while i < pieces.len()
        invariant
            i <= pieces.len(),
            ps == views(pieces@),
            reps == views(found@).map_values(|m: Seq<char>| term_or_self(terms_view(terms@), m)),
            parts == Seq::new(ps.len(), |i: int| piece_with_replacement(ps, reps, i)),
            res@ == parts.take(i as int).flatten(),
        decreases pieces.len() - i,
    {
        assert(parts.take(i + 1) =~= parts.take(i as int).push(parts[i as int]));
        proof {
            parts.take(i as int).lemma_flatten_push(parts[i as int]);
        }
        append_str(&mut res, pieces[i].as_str());
        if i + 1 < pieces.len() && i < found.len() {
            let replacement = match lookup_term(terms, found[i].as_str()) {
                Some(t) => t,
                None => found[i].clone(),
            };
            append_str(&mut res, replacement.as_str());
        }
        i = i + 1;
    }
    assert(parts.take(pieces.len() as int) =~= parts);
    res
}

/// Sorts texts by length in UTF-8 bytes, longest first, keeping the order
/// of texts of equal length.
pub fn sort_longest_first(v: &Vec<String>) -> (res: Vec<String>)
    ensures
        views(res@) == stable_sort(views(v@), longer_first()),
{
    let mut res: Vec<String> = Vec::new();
    let mut i: usize = v.len();
    assert(views(v@).skip(v.len() as int) =~= Seq::<Seq<char>>::empty());
    while i > 0
        invariant
            i <= v.len(),
            views(res@) == stable_sort(views(v@).skip(i as int), longer_first()),
        decreases i,
    {
        let x = v[i - 1].clone();
        let ghost xs = views(v@).skip(i - 1);
        assert(xs[0] == x@);
        assert(xs.drop_first() =~= views(v@).skip(i as int));
        let xlen = x.as_str().as_bytes().len();
        let mut k: usize = 0;
        while k < res.len() && xlen < res[k].as_str().as_bytes().len()
            invariant
                k <= res.len(),
                xlen == vstd::utf8::encode_utf8(x@).len(),
                forall|m: int|
                    0 <= m < k ==> !(longer_first())(x@, #[trigger] views(res@)[m]),
            decreases res.len() - k,
        {
            k = k + 1;
        }
        proof {
            lemma_insert_sorted_at(x@, views(res@), longer_first(), k as int);
        }
        let ghost before = res@;
        res.insert(k, x);
        assert(views(res@) =~= views(before).take(k as int) + seq![v@[i - 1]@] + views(
            before,
        ).skip(k as int));
        i = i - 1;
    }
    assert(views(v@).skip(0) =~= views(v@));
    res
}

/// Builds the alternation of all escaped source terms, longest first.
pub fn build_terminology_pattern(terms: &Vec<(String, String)>) -> (res: String)
    ensures
        res@ == terminology_pattern(terms_view(terms@)),
{
    let mut sources: Vec<String> = Vec::new();
    let mut i: usize = 0;
    while i < terms.len()
        invariant
            i <= terms.len(),
            views(sources@) == terms_view(terms@).take(i as int).map_values(
                |p: (Seq<char>, Seq<char>)| p.0,
            ),
        decreases terms.len() - i,
    {
        let ghost before = sources@;
        assert(before.len() == i) by {
            assert(views(before).len() == before.len());
        }
        sources.push(terms[i].0.clone());
        assert forall|m: int| 0 <= m < i + 1 implies #[trigger] views(sources@)[m]
            == terms_view(terms@).take(i + 1).map_values(|p: (Seq<char>, Seq<char>)| p.0)[m] by {
            if m < i {
                assert(sources@[m] == before[m]);
                assert(views(before)[m] == terms_view(terms@).take(i as int).map_values(
                    |p: (Seq<char>, Seq<char>)| p.0,
                )[m]);
            }
        }
        assert(views(sources@) =~= terms_view(terms@).take(i + 1).map_values(
            |p: (Seq<char>, Seq<char>)| p.0,
        ));
        i = i + 1;
    }
    assert(terms_view(terms@).take(terms.len() as int) =~= terms_view(terms@));
    let sorted = sort_longest_first(&sources);
    let mut escaped_sources: Vec<String> = Vec::new();
    let mut j: usize = 0;
    while j < sorted.len()
        invariant
            j <= sorted.len(),
            views(escaped_sources@) == views(sorted@).take(j as int).map_values(
                |s: Seq<char>| escaped(s),
            ),
        decreases sorted.len() - j,
    {
        let ghost before = escaped_sources@;
        assert(before.len() == j) by {
            assert(views(before).len() == before.len());
        }
        escaped_sources.push(escape(sorted[j].as_str()));
        assert forall|m: int| 0 <= m < j + 1 implies #[trigger] views(escaped_sources@)[m]
            == views(sorted@).take(j + 1).map_values(|s: Seq<char>| escaped(s))[m] by {
            if m < j {
                assert(escaped_sources@[m] == before[m]);
                assert(views(before)[m] == views(sorted@).take(j as int).map_values(
                    |s: Seq<char>| escaped(s),
                )[m]);
            }
        }
        assert(views(escaped_sources@) =~= views(sorted@).take(j + 1).map_values(
            |s: Seq<char>| escaped(s),
        ));
        j = j + 1;
    }
    assert(views(sorted@).take(sorted.len() as int) =~= views(sorted@));
    join(&escaped_sources, "|")
}

/// Replaces every occurrence of a source term of the dictionary by its
/// fixed translation, longer terms first (see `apply_terminology_spec`).
pub fn apply_terminology(text: &str, terminology: &Vec<(String, String)>) -> (res: String)
    ensures
        res@ == apply_terminology_spec(text@, terms_view(terminology@)),
{
    if text.is_empty() || terminology.len() == 0 {
        return owned(text);
    }
    let pattern = build_terminology_pattern(terminology);
    if pattern.as_str().is_empty() {
        return owned(text);
    }
    match compile(pattern.as_str()) {
        Some(re) => {
            let pieces = split_at_matches(&re, text);
            let found = find_matches(&re, text);
            replace_terms(&pieces, &found, terminology)
        },
        None => owned(text),
    }
}

// ---------------------------------------------------------------------------
// Laws
// ---------------------------------------------------------------------------

/// A term is translated by the first dictionary pair whose source it is.
pub proof fn lemma_term_translated_by_first_pair(terms: Seq<(Seq<char>, Seq<char>)>, j: int)
    requires
        0 <= j < terms.len(),
        forall|i: int| 0 <= i < j ==> terms[i].0 != terms[j].0,
    ensures
        term_or_self(terms, terms[j].0) == terms[j].1,
    decreases j,
{
    if j > 0 {
        let rest = terms.drop_first();
        assert forall|i: int| 0 <= i < j - 1 implies (#[trigger] rest[i]).0 != rest[j - 1].0 by {
            assert(rest[i] == terms[i + 1]);
        }
        assert(terms[0].0 != terms[j].0);
        lemma_term_translated_by_first_pair(rest, j - 1);
        assert(rest[j - 1] == terms[j]);
    }
}

/// A matched text that is no source of the dictionary stays as it is.
pub proof fn lemma_unknown_term_kept(terms: Seq<(Seq<char>, Seq<char>)>, m: Seq<char>)
    requires
        forall|i: int| 0 <= i < terms.len() ==> terms[i].0 != m,
    ensures
        term_or_self(terms, m) == m,
    decreases terms.len(),
{
    if terms.len() > 0 {
        let rest = terms.drop_first();
        assert forall|i: int| 0 <= i < rest.len() implies rest[i].0 != m by {
            assert(rest[i] == terms[i + 1]);
        }
        lemma_unknown_term_kept(rest, m);
    }
}

/// Replacing matches works match by match: the text is the first piece,
/// then the translation of the first match, then the rest replaced in the
/// same way. So every match is translated on its own, whatever the others
/// are; with no match left, the text is the last piece.
pub proof fn lemma_replaced_text_step(
    pieces: Seq<Seq<char>>,
    found: Seq<Seq<char>>,
    terms: Seq<(Seq<char>, Seq<char>)>,
)
    requires
        pieces.len() == found.len() + 1,
    ensures
        found.len() == 0 ==> replaced_text(pieces, found, terms) == pieces[0],
        found.len() > 0 ==> replaced_text(pieces, found, terms) == pieces[0] + term_or_self(
            terms,
            found[0],
        ) + replaced_text(pieces.drop_first(), found.drop_first(), terms),
{
    let f = |m: Seq<char>| term_or_self(terms, m);
    let reps = found.map_values(f);
    let parts = Seq::new(pieces.len(), |i: int| piece_with_replacement(pieces, reps, i));
    assert(parts.flatten() == parts.first() + parts.drop_first().flatten());
    if found.len() == 0 {
        assert(parts.drop_first() =~= Seq::<Seq<char>>::empty());
        assert(parts.drop_first().flatten() =~= Seq::<char>::empty());
        assert(parts.first() + Seq::<char>::empty() =~= pieces[0]);
    } else {
        let reps2 = found.drop_first().map_values(f);
        assert(reps.drop_first() =~= reps2);
        let parts2 = Seq::new(
            pieces.drop_first().len(),
            |i: int| piece_with_replacement(pieces.drop_first(), reps2, i),
        );
        assert(parts.drop_first() =~= parts2);
        assert(parts.first() == pieces[0] + term_or_self(terms, found[0]));
    }
}

} // verus!
