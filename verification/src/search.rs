//! Ranking of desktop entries against the text typed into the search bar.
use std::rc::Rc;
use vstd::prelude::*;
use vstd::std_specs::iter::IteratorSpec;
use vstd::string::*;

use crate::desktop_entry::XdgDesktopEntry;
use crate::text::{byte_len, char_utf8_width, chars_of, utf8_width};

verus! {

broadcast use vstd::string::group_string_axioms;

/// The positions (into the entry list) of a search, best first.
pub type SearchResult = Vec<usize>;

/// No more than this many entries are ranked for one query.
pub const MAX_SEARCH_RESULTS: usize = 200;

/// ASCII upper-case letters become lower-case; everything else is kept.
pub open spec fn ascii_lower(c: char) -> char {
    if 'A' <= c <= 'Z' {
        ((c as u32) + 32) as char
    } else {
        c
    }
}

/// `s` with every ASCII letter in lower case.
pub open spec fn ascii_lowercase(s: Seq<char>) -> Seq<char> {
    s.map_values(|c: char| ascii_lower(c))
}

/// `needle` occurs in `hay` starting at character `i`.
pub open spec fn occurs_at(hay: Seq<char>, needle: Seq<char>, i: int) -> bool {
    0 <= i && i + needle.len() <= hay.len() && hay.subrange(i, i + needle.len()) == needle
}

/// The lower-cased `name` contains `query` somewhere.
pub open spec fn name_contains(name: Seq<char>, query: Seq<char>) -> bool {
    exists|j: int| occurs_at(ascii_lowercase(name), query, j)
}

/// The first character position at or after `i` where `needle` occurs.
pub open spec fn first_occurrence_from(hay: Seq<char>, needle: Seq<char>, i: int) -> Option<int>
    decreases hay.len() + 1 - i,
{
    if i < 0 || i + needle.len() > hay.len() {
        None
    } else if occurs_at(hay, needle, i) {
        Some(i)
    } else {
        first_occurrence_from(hay, needle, i + 1)
    }
}

/// Score of an entry name against a lower-cased query: the larger, the
/// earlier the query occurs in the lower-cased name (counted in bytes);
/// zero when it does not occur.
pub open spec fn search_score(name: Seq<char>, query: Seq<char>) -> int {
    let hay = ascii_lowercase(name);
    match first_occurrence_from(hay, query, 0) {
        Some(i) => usize::MAX - byte_len(hay.take(i)),
        None => 0,
    }
}

/// Wraps `String::make_ascii_lowercase`: ASCII letters 'A'..='Z' are mapped
/// to 'a'..='z' and all other characters are left as they are (as std documents).
#[verifier::external_body]
pub(crate) fn make_ascii_lowercase(s: &mut String)
    ensures
        final(s)@ == ascii_lowercase(old(s)@),
{
    s.make_ascii_lowercase()
}

/// The first character position where `needle` occurs in `hay`.
pub fn find_chars(hay: &Vec<char>, needle: &Vec<char>) -> (r: Option<usize>)
    ensures
        match r {
            Some(i) => first_occurrence_from(hay@, needle@, 0) == Some(i as int) && i + needle@.len()
                <= hay@.len(),
            None => first_occurrence_from(hay@, needle@, 0) is None,
        },
        match r {
            Some(i) => occurs_at(hay@, needle@, i as int) && forall|j: int|
                0 <= j < i ==> !occurs_at(hay@, needle@, j),
            None => forall|j: int| !occurs_at(hay@, needle@, j),
        },
{
    proof {
        lemma_first_occurrence_is_first(hay@, needle@);
    }
    let hl = hay.len();
    let nl = needle.len();
    if nl > hl {
        assert(first_occurrence_from(hay@, needle@, 0) is None);
        return None;
    }
    if nl == 0 {
        assert(hay@.subrange(0, 0) =~= needle@);
        return Some(0);
    }
    let mut i: usize = 0;
    while i <= hl - nl
        invariant
            hl == hay@.len(),
            nl == needle@.len(),
            1 <= nl <= hl,
            i <= hl - nl + 1,
            first_occurrence_from(hay@, needle@, 0) == first_occurrence_from(hay@, needle@, i as int),
        decreases hl - nl + 1 - i,
    {
        let mut j: usize = 0;
        let mut all = true;
        while j < nl
            invariant
                hl == hay@.len(),
                nl == needle@.len(),
                i + nl <= hl,
                j <= nl,
                all ==> forall|k: int| 0 <= k < j ==> hay@[i + k] == needle@[k],
                !all ==> !occurs_at(hay@, needle@, i as int),
            decreases nl - j,
        {
            if hay[i + j] != needle[j] {
                if all {
                    proof {
                        let sub = hay@.subrange(i as int, i + nl);
                        assert(sub[j as int] == hay@[i + j]);
                    }
                }
                all = false;
            }
            j += 1;
        }
        if all {
            assert(hay@.subrange(i as int, i + nl) =~= needle@);
            proof {
                lemma_first_occurrence_is_first(hay@, needle@);
            }
            return Some(i);
        }
        i += 1;
    }
    None
}

/// What a search from `i` finds: the first place at or after `i` where
/// `needle` occurs, or nothing when it occurs nowhere from `i` on.
proof fn lemma_first_occurrence_from(hay: Seq<char>, needle: Seq<char>, i: int)
    requires
        0 <= i,
    ensures
        match first_occurrence_from(hay, needle, i) {
            Some(k) => i <= k && occurs_at(hay, needle, k) && forall|j: int|
                i <= j < k ==> !occurs_at(hay, needle, j),
            None => forall|j: int| i <= j ==> !occurs_at(hay, needle, j),
        },
    decreases hay.len() + 1 - i,
{
    if i + needle.len() > hay.len() {
    } else if !occurs_at(hay, needle, i) {
        lemma_first_occurrence_from(hay, needle, i + 1);
        assert forall|j: int| i <= j < i + 1 implies !occurs_at(hay, needle, j) by {}
    }
}

/// The place a search reports is where `needle` occurs first in `hay`: it
/// occurs there and at no earlier place; nothing is reported only when it
/// occurs nowhere.
pub proof fn lemma_first_occurrence_is_first(hay: Seq<char>, needle: Seq<char>)
    ensures
        match first_occurrence_from(hay, needle, 0) {
            Some(k) => occurs_at(hay, needle, k) && forall|j: int|
                0 <= j < k ==> !occurs_at(hay, needle, j),
            None => forall|j: int| !occurs_at(hay, needle, j),
        },
{
    lemma_first_occurrence_from(hay, needle, 0);
    if first_occurrence_from(hay, needle, 0) is None {
        assert forall|j: int| !occurs_at(hay, needle, j) by {
            if j >= 0 {
                assert(0 <= j);
            }
        }
    }
}

/// The score of a name is `usize::MAX` less the bytes before the first
/// place where the query occurs in the lower-cased name, and zero when it
/// occurs nowhere.
pub proof fn lemma_score_first_match(name: Seq<char>, query: Seq<char>, i: int)
    ensures
        occurs_at(ascii_lowercase(name), query, i) && (forall|j: int|
            0 <= j < i ==> !occurs_at(ascii_lowercase(name), query, j)) ==> search_score(name, query)
            == usize::MAX - byte_len(ascii_lowercase(name).take(i)),
        (forall|j: int| !occurs_at(ascii_lowercase(name), query, j)) ==> search_score(name, query)
            == 0,
{
    let hay = ascii_lowercase(name);
    lemma_first_occurrence_is_first(hay, query);
    match first_occurrence_from(hay, query, 0) {
        Some(k) => {
            if occurs_at(hay, query, i) && (forall|j: int| 0 <= j < i ==> !occurs_at(hay, query, j)) {
                if k < i {
                    assert(!occurs_at(hay, query, k));
                } else if i < k {
                    assert(0 <= i);
                }
            }
            assert(occurs_at(hay, query, k));
        },
        None => {},
    }
}

/// Number of bytes taken by the first `k` characters of `s`.
fn prefix_bytes(s: &Vec<char>, k: usize, total: usize) -> (b: usize)
    requires
        k <= s@.len(),
        total == byte_len(s@),
    ensures
        b == byte_len(s@.take(k as int)),
{
    let mut b: usize = 0;
    let mut i: usize = 0;
    while i < k
        invariant
            i <= k,
            k <= s@.len(),
            total == byte_len(s@),
            b == byte_len(s@.take(i as int)),
        decreases k - i,
    {
        proof {
            crate::text::lemma_byte_len_take_step(s@, i as int);
            crate::text::lemma_byte_len_prefix_le(s@, i + 1);
        }
        b += char_utf8_width(s[i]);
        i += 1;
    }
    b
}

/// Score of `entry` for the (already lower-cased) query.
pub fn get_search_score_for(entry: &XdgDesktopEntry, query_string: &str) -> (score: usize)
    ensures
        score == search_score(entry.display_name@, query_string@),
        forall|i: int|
            #[trigger] occurs_at(ascii_lowercase(entry.display_name@), query_string@, i) && (forall|
                j: int,
            | 0 <= j < i ==> !occurs_at(ascii_lowercase(entry.display_name@), query_string@, j))
                ==> score == usize::MAX - byte_len(ascii_lowercase(entry.display_name@).take(i)),
        (forall|j: int| !occurs_at(ascii_lowercase(entry.display_name@), query_string@, j))
            ==> score == 0,
{
    proof {
        assert forall|i: int|
            #[trigger] occurs_at(ascii_lowercase(entry.display_name@), query_string@, i) && (forall|
                j: int,
            | 0 <= j < i ==> !occurs_at(ascii_lowercase(entry.display_name@), query_string@, j))
                implies search_score(entry.display_name@, query_string@) == usize::MAX - byte_len(
            ascii_lowercase(entry.display_name@).take(i),
        ) by {
            lemma_score_first_match(entry.display_name@, query_string@, i);
        }
        lemma_score_first_match(entry.display_name@, query_string@, 0);
    }
    let mut app_name = entry.display_name.clone();
    make_ascii_lowercase(&mut app_name);
    let total = app_name.as_str().as_bytes().len();
    proof {
        crate::text::lemma_encode_utf8_len(app_name@);
    }
    let hay = chars_of(app_name.as_str());
    let needle = chars_of(query_string);
    match find_chars(&hay, &needle) {
        Some(idx) => {
            let b = prefix_bytes(&hay, idx, total);
            proof {
                crate::text::lemma_byte_len_prefix_le(hay@, idx as int);
            }
            usize::MAX - b
        },
        None => 0,
    }
}

/// Display names of a list of entries.
pub open spec fn entry_names(files: Seq<XdgDesktopEntry>) -> Seq<Seq<char>> {
    files.map_values(|e: XdgDesktopEntry| e.display_name@)
}

/// Score of every entry, in entry order.
pub open spec fn scores_for(names: Seq<Seq<char>>, query: Seq<char>) -> Seq<int> {
    names.map_values(|n: Seq<char>| search_score(n, query))
}

/// Positions below `k` whose score is positive, in increasing order.
pub open spec fn matches_upto(scores: Seq<int>, k: int) -> Seq<int>
    decreases k,
{
    if k <= 0 {
        Seq::empty()
    } else if scores[k - 1] > 0 {
        matches_upto(scores, k - 1).push(k - 1)
    } else {
        matches_upto(scores, k - 1)
    }
}

/// The entries that a search ranks: the first `MAX_SEARCH_RESULTS` positions
/// with a positive score.
pub open spec fn search_candidates(scores: Seq<int>) -> Seq<int> {
    let m = matches_upto(scores, scores.len() as int);
    if m.len() > MAX_SEARCH_RESULTS {
        m.take(MAX_SEARCH_RESULTS as int)
    } else {
        m
    }
}

/// Entry `a` is listed before entry `b`: a higher score first, and on equal
/// scores the entry that comes first in the list.
pub open spec fn ranks_before(scores: Seq<int>, a: int, b: int) -> bool {
    scores[a] > scores[b] || (scores[a] == scores[b] && a < b)
}

/// `r` lists exactly the search candidates, best first.
pub open spec fn is_ranking(r: Seq<int>, scores: Seq<int>) -> bool {
    let c = search_candidates(scores);
    &&& r.len() == c.len()
    &&& r.to_set() == c.to_set()
    &&& forall|i: int, j: int| 0 <= i < j < r.len() ==> ranks_before(scores, r[i], r[j])
}

/// The query that is matched for the text of the search bar: a lone newline
/// matches every entry, an empty text matches nothing, and anything else is
/// matched in ASCII lower case.
pub open spec fn effective_query(text: Seq<char>) -> Option<Seq<char>> {
    if text == seq!['\n'] {
        Some(Seq::empty())
    } else if text.len() == 0 {
        None
    } else {
        Some(ascii_lowercase(text))
    }
}

/// What a search for `text` over `files` returns, as positions.
pub open spec fn search_results_for(r: Seq<usize>, files: Seq<XdgDesktopEntry>, text: Seq<char>) -> bool {
    let ints = r.map_values(|x: usize| x as int);
    match effective_query(text) {
        None => r.len() == 0,
        Some(q) => is_ranking(ints, scores_for(entry_names(files), q)),
    }
}

/// Positions of candidate pairs `(position, score)`.
pub open spec fn cand_indices(c: Seq<(usize, usize)>) -> Seq<int> {
    c.map_values(|p: (usize, usize)| p.0 as int)
}

/// Earlier matches stay a prefix of later ones.
pub proof fn lemma_matches_prefix(scores: Seq<int>, k: int, k2: int)
    requires
        0 <= k <= k2 <= scores.len(),
    ensures
        matches_upto(scores, k2).len() >= matches_upto(scores, k).len(),
        matches_upto(scores, k2).take(matches_upto(scores, k).len() as int) == matches_upto(
            scores,
            k,
        ),
    decreases k2,
{
    if k2 == k {
        assert(matches_upto(scores, k2).take(matches_upto(scores, k).len() as int)
            =~= matches_upto(scores, k));
    } else {
        lemma_matches_prefix(scores, k, k2 - 1);
        let a = matches_upto(scores, k2 - 1);
        let m = matches_upto(scores, k).len() as int;
        if scores[k2 - 1] > 0 {
            assert(a.push(k2 - 1).take(m) =~= a.take(m));
        }
    }
}

/// Matches are increasing positions below `k` with positive scores.
pub proof fn lemma_matches_props(scores: Seq<int>, k: int)
    requires
        0 <= k <= scores.len(),
    ensures
        forall|i: int|
            0 <= i < matches_upto(scores, k).len() ==> 0 <= #[trigger] matches_upto(scores, k)[i]
                < k && scores[matches_upto(scores, k)[i]] > 0,
        forall|i: int, j: int|
            0 <= i < j < matches_upto(scores, k).len() ==> matches_upto(scores, k)[i]
                < matches_upto(scores, k)[j],
        matches_upto(scores, k).len() <= k,
    decreases k,
{
    if k > 0 {
        lemma_matches_props(scores, k - 1);
    }
}

/// Every ranked position is a position of the list.
pub proof fn lemma_ranking_in_range(r: Seq<int>, scores: Seq<int>)
    requires
        is_ranking(r, scores),
    ensures
        forall|i: int| 0 <= i < r.len() ==> 0 <= #[trigger] r[i] < scores.len(),
{
    let c = search_candidates(scores);
    let m = matches_upto(scores, scores.len() as int);
    lemma_matches_props(scores, scores.len() as int);
    assert forall|i: int| 0 <= i < r.len() implies 0 <= #[trigger] r[i] < scores.len() by {
        assert(r.to_set().contains(r[i]));
        assert(c.to_set().contains(r[i]));
        let j = choose|j: int| 0 <= j < c.len() && c[j] == r[i];
        if m.len() > MAX_SEARCH_RESULTS {
            assert(c =~= m.take(MAX_SEARCH_RESULTS as int));
            assert(c[j] == m[j]);
        }
    }
}

/// Every position of a search result is a position of the list searched.
pub proof fn lemma_search_results_in_range(r: Seq<usize>, files: Seq<XdgDesktopEntry>, text: Seq<char>)
    requires
        search_results_for(r, files, text),
    ensures
        forall|i: int| 0 <= i < r.len() ==> #[trigger] r[i] < files.len(),
{
    let ints = r.map_values(|x: usize| x as int);
    match effective_query(text) {
        None => {},
        Some(q) => {
            lemma_ranking_in_range(ints, scores_for(entry_names(files), q));
            assert forall|i: int| 0 <= i < r.len() implies #[trigger] r[i] < files.len() by {
                assert(ints[i] == r[i] as int);
            }
        },
    }
}

/// Two rankings agree up to place `k`.
proof fn lemma_rankings_agree_upto(r1: Seq<int>, r2: Seq<int>, scores: Seq<int>, k: int)
    requires
        is_ranking(r1, scores),
        is_ranking(r2, scores),
        0 <= k <= r1.len(),
    ensures
        forall|i: int| 0 <= i < k ==> r1[i] == r2[i],
    decreases k,
{
    if k > 0 {
        lemma_rankings_agree_upto(r1, r2, scores, k - 1);
        let i = k - 1;
        let a = r1[i];
        let b = r2[i];
        if a != b {
            assert(r1.to_set().contains(b)) by {
                assert(r2.to_set().contains(b));
            }
            assert(r2.to_set().contains(a)) by {
                assert(r1.to_set().contains(a));
            }
            let j = choose|j: int| 0 <= j < r2.len() && r2[j] == a;
            let l = choose|l: int| 0 <= l < r1.len() && r1[l] == b;
            if j < i {
                assert(r1[j] == r2[j]);
                assert(ranks_before(scores, r1[j], r1[i]));
            }
            if l < i {
                assert(r1[l] == r2[l]);
                assert(ranks_before(scores, r2[l], r2[i]));
            }
            assert(ranks_before(scores, b, a));
            assert(ranks_before(scores, a, b));
        }
    }
}

/// A search has exactly one possible result: two rankings of the same
/// scores are equal.
pub proof fn lemma_ranking_unique(r1: Seq<int>, r2: Seq<int>, scores: Seq<int>)
    requires
        is_ranking(r1, scores),
        is_ranking(r2, scores),
    ensures
        r1 == r2,
{
    lemma_rankings_agree_upto(r1, r2, scores, r1.len() as int);
    assert(r1 =~= r2);
}

/// The empty query occurs at the start of every name.
pub proof fn lemma_empty_query_score(name: Seq<char>)
    ensures
        search_score(name, Seq::empty()) == usize::MAX,
{
    let hay = ascii_lowercase(name);
    assert(hay.subrange(0, 0) =~= Seq::<char>::empty());
    assert(hay.take(0) =~= Seq::<char>::empty());
}

/// With every score equal and positive, every position matches.
proof fn lemma_all_match(scores: Seq<int>, k: int)
    requires
        0 <= k <= scores.len(),
        forall|i: int| 0 <= i < scores.len() ==> scores[i] == usize::MAX,
    ensures
        matches_upto(scores, k) == Seq::new(k as nat, |i: int| i),
    decreases k,
{
    if k > 0 {
        lemma_all_match(scores, k - 1);
        assert(matches_upto(scores, k) =~= Seq::new(k as nat, |i: int| i));
    } else {
        assert(matches_upto(scores, k) =~= Seq::new(k as nat, |i: int| i));
    }
}

/// Pressing Enter on an empty search bar (a lone newline) lists the entries
/// in list order, as many as a search ranks.
pub proof fn lemma_newline_lists_all(r: Seq<usize>, files: Seq<XdgDesktopEntry>)
    requires
        search_results_for(r, files, seq!['\n']),
    ensures
        r.len() == if files.len() > MAX_SEARCH_RESULTS {
            MAX_SEARCH_RESULTS as int
        } else {
            files.len() as int
        },
        forall|i: int| 0 <= i < r.len() ==> r[i] == i,
{
    assert(effective_query(seq!['\n']) == Some(Seq::<char>::empty()));
    let scores = scores_for(entry_names(files), Seq::empty());
    assert forall|i: int| 0 <= i < scores.len() implies scores[i] == usize::MAX by {
        lemma_empty_query_score(entry_names(files)[i]);
    }
    lemma_all_match(scores, scores.len() as int);
    let m = if files.len() > MAX_SEARCH_RESULTS {
        MAX_SEARCH_RESULTS as int
    } else {
        files.len() as int
    };
    let ident = Seq::new(m as nat, |i: int| i);
    let c = search_candidates(scores);
    assert(c =~= ident);
    assert(is_ranking(ident, scores));
    let ints = r.map_values(|x: usize| x as int);
    lemma_ranking_unique(ints, ident, scores);
    assert forall|i: int| 0 <= i < r.len() implies r[i] == i by {
        assert(ints[i] == r[i] as int);
    }
}

/// A match found from `i` on is an occurrence.
proof fn lemma_first_occurrence_occurs(hay: Seq<char>, needle: Seq<char>, i: int)
    requires
        first_occurrence_from(hay, needle, i) is Some,
    ensures
        occurs_at(hay, needle, first_occurrence_from(hay, needle, i)->0),
    decreases hay.len() + 1 - i,
{
    if !(i < 0 || i + needle.len() > hay.len()) && !occurs_at(hay, needle, i) {
        lemma_first_occurrence_occurs(hay, needle, i + 1);
    }
}

/// Every entry a search returns contains the query in its name, ignoring
/// ASCII case.
pub proof fn lemma_results_contain_query(r: Seq<usize>, files: Seq<XdgDesktopEntry>, text: Seq<char>)
    requires
        search_results_for(r, files, text),
        effective_query(text) is Some,
    ensures
        forall|i: int|
            0 <= i < r.len() ==> #[trigger] name_contains(
                files[r[i] as int].display_name@,
                effective_query(text)->0,
            ),
{
    let q = effective_query(text)->0;
    let scores = scores_for(entry_names(files), q);
    let ints = r.map_values(|x: usize| x as int);
    let c = search_candidates(scores);
    let m = matches_upto(scores, scores.len() as int);
    lemma_matches_props(scores, scores.len() as int);
    lemma_ranking_in_range(ints, scores);
    assert forall|i: int| 0 <= i < r.len() implies #[trigger] name_contains(
        files[r[i] as int].display_name@,
        q,
    ) by {
        assert(ints[i] == r[i] as int);
        assert(ints.to_set().contains(ints[i]));
        assert(c.to_set().contains(ints[i]));
        let k = choose|k: int| 0 <= k < c.len() && c[k] == ints[i];
        if m.len() > MAX_SEARCH_RESULTS {
            assert(c =~= m.take(MAX_SEARCH_RESULTS as int));
        }
        assert(c[k] == m[k]);
        let name = files[r[i] as int].display_name@;
        assert(entry_names(files)[r[i] as int] == name);
        assert(scores[r[i] as int] == search_score(name, q));
        let hay = ascii_lowercase(name);
        lemma_first_occurrence_occurs(hay, q, 0);
        let j = first_occurrence_from(hay, q, 0)->0;
        assert(occurs_at(hay, q, j));
    }
}

/// Pairs `(position, score)` of the entries that a search ranks, in list order.
fn collect_candidates(files: &Vec<XdgDesktopEntry>, query: &str) -> (cands: Vec<(usize, usize)>)
    ensures
        cand_indices(cands@) == search_candidates(scores_for(entry_names(files@), query@)),
        forall|i: int|
            0 <= i < cands@.len() ==> (#[trigger] cands@[i]).1 as int == scores_for(
                entry_names(files@),
                query@,
            )[cands@[i].0 as int],
{
    let ghost scores = scores_for(entry_names(files@), query@);
    let n = files.len();
    let mut cands: Vec<(usize, usize)> = Vec::new();
    let mut idx: usize = 0;
    while idx < n && cands.len() < MAX_SEARCH_RESULTS
        invariant
            n == files@.len(),
            scores == scores_for(entry_names(files@), query@),
            scores.len() == n,
            idx <= n,
            cands@.len() <= MAX_SEARCH_RESULTS,
            cand_indices(cands@) == matches_upto(scores, idx as int),
            forall|i: int|
                0 <= i < cands@.len() ==> (#[trigger] cands@[i]).1 as int == scores[cands@[i].0 as int],
        decreases n - idx,
    {
        let score = get_search_score_for(&files[idx], query);
        assert(scores[idx as int] == score);
        if score > 0 {
            let ghost old_c = cands@;
            cands.push((idx, score));
            assert(cand_indices(cands@) =~= cand_indices(old_c).push(idx as int));
        }
        idx += 1;
    }
    proof {
        lemma_matches_prefix(scores, idx as int, n as int);
        let m = matches_upto(scores, n as int);
        if idx < n {
            assert(cands@.len() == MAX_SEARCH_RESULTS);
            if m.len() == MAX_SEARCH_RESULTS {
                assert(m.take(MAX_SEARCH_RESULTS as int) =~= m);
            }
        } else {
            assert(idx == n);
        }
    }
    cands
}

/// `x` is the position of one of the pairs in `s`.
pub open spec fn has_index(s: Seq<(usize, usize)>, x: int) -> bool {
    exists|i: int| 0 <= i < s.len() && s[i].0 as int == x
}

/// Inserting a pair adds exactly its position to the positions present.
proof fn lemma_insert_has_index(s: Seq<(usize, usize)>, pos: int, e: (usize, usize), x: int)
    requires
        0 <= pos <= s.len(),
    ensures
        has_index(s.insert(pos, e), x) <==> (has_index(s, x) || x == e.0 as int),
{
    let t = s.insert(pos, e);
    if has_index(s, x) {
        let i = choose|i: int| 0 <= i < s.len() && s[i].0 as int == x;
        if i < pos {
            assert(t[i] == s[i]);
        } else {
            assert(t[i + 1] == s[i]);
        }
    }
    if x == e.0 as int {
        assert(t[pos] == e);
    }
    if has_index(t, x) {
        let i = choose|i: int| 0 <= i < t.len() && t[i].0 as int == x;
        if i < pos {
            assert(t[i] == s[i]);
        } else if i > pos {
            assert(t[i] == s[i - 1]);
        }
    }
}

/// The positions of `cands`, best first.
fn rank_candidates(cands: &Vec<(usize, usize)>, Ghost(scores): Ghost<Seq<int>>) -> (r: Vec<usize>)
    requires
        forall|i: int|
            0 <= i < cands@.len() ==> (#[trigger] cands@[i]).1 as int == scores[cands@[i].0 as int],
        forall|i: int, j: int| 0 <= i < j < cands@.len() ==> cands@[i].0 < cands@[j].0,
    ensures
        r@.len() == cands@.len(),
        forall|x: int| #![trigger has_index(cands@, x)]
            has_index(cands@, x) <==> r@.map_values(|v: usize| v as int).contains(x),
        forall|i: int, j: int|
            0 <= i < j < r@.len() ==> ranks_before(scores, r@[i] as int, r@[j] as int),
{
    let n = cands.len();
    let mut sorted: Vec<(usize, usize)> = Vec::new();
    let mut k: usize = 0;
    while k < n
        invariant
            n == cands@.len(),
            k <= n,
            sorted@.len() == k,
            forall|i: int|
                0 <= i < cands@.len() ==> (#[trigger] cands@[i]).1 as int == scores[cands@[i].0 as int],
            forall|i: int, j: int| 0 <= i < j < cands@.len() ==> cands@[i].0 < cands@[j].0,
            forall|i: int|
                0 <= i < sorted@.len() ==> (#[trigger] sorted@[i]).1 as int
                    == scores[sorted@[i].0 as int],
            forall|i: int, j: int|
                0 <= i < j < sorted@.len() ==> ranks_before(
                    scores,
                    sorted@[i].0 as int,
                    sorted@[j].0 as int,
                ),
            forall|x: int| #![trigger has_index(sorted@, x)]
                has_index(sorted@, x) <==> has_index(cands@.take(k as int), x),
        decreases n - k,
    {
        let c = cands[k];
        assert forall|i: int| 0 <= i < sorted@.len() implies (#[trigger] sorted@[i]).0 < c.0 by {
            assert(has_index(sorted@, sorted@[i].0 as int));
            assert(has_index(cands@.take(k as int), sorted@[i].0 as int));
            let j = choose|j: int|
                0 <= j < cands@.take(k as int).len() && cands@.take(k as int)[j].0 as int
                    == sorted@[i].0 as int;
            assert(cands@[j].0 < cands@[k as int].0);
        }
        let mut pos: usize = 0;
        while pos < sorted.len() && sorted[pos].1 >= c.1
            invariant
                pos <= sorted@.len(),
                forall|j: int| 0 <= j < pos ==> (#[trigger] sorted@[j]).1 >= c.1,
            decreases sorted@.len() - pos,
        {
            pos += 1;
        }
        let ghost old_sorted = sorted@;
        assert forall|j: int| pos <= j < old_sorted.len() implies (#[trigger] old_sorted[j]).1 < c.1 by {
            if j > pos {
                assert(ranks_before(scores, old_sorted[pos as int].0 as int, old_sorted[j].0 as int));
            }
        }
        sorted.insert(pos, c);
        proof {
            let t = sorted@;
            assert(t == old_sorted.insert(pos as int, c));
            assert forall|i: int, j: int| 0 <= i < j < t.len() implies ranks_before(
                scores,
                t[i].0 as int,
                t[j].0 as int,
            ) by {
                if j < pos {
                    assert(t[i] == old_sorted[i] && t[j] == old_sorted[j]);
                } else if j == pos {
                    assert(t[i] == old_sorted[i]);
                } else if i == pos {
                    assert(t[j] == old_sorted[j - 1]);
                } else if i < pos {
                    assert(t[i] == old_sorted[i] && t[j] == old_sorted[j - 1]);
                } else {
                    assert(t[i] == old_sorted[i - 1] && t[j] == old_sorted[j - 1]);
                }
            }
            assert forall|i: int| 0 <= i < t.len() implies (#[trigger] t[i]).1 as int
                == scores[t[i].0 as int] by {
                if i < pos {
                    assert(t[i] == old_sorted[i]);
                } else if i > pos {
                    assert(t[i] == old_sorted[i - 1]);
                }
            }
            assert forall|x: int| #![trigger has_index(t, x)]
                has_index(t, x) <==> has_index(cands@.take(k + 1), x) by {
                lemma_insert_has_index(old_sorted, pos as int, c, x);
                lemma_insert_has_index(cands@.take(k as int), k as int, c, x);
                assert(cands@.take(k as int).insert(k as int, c) =~= cands@.take(k + 1));
            }
        }
        k += 1;
    }
    let mut r: Vec<usize> = Vec::new();
    let mut i: usize = 0;
    while i < n
        invariant
            n == sorted@.len(),
            i <= n,
            r@.len() == i,
            forall|j: int| 0 <= j < i ==> r@[j] == (#[trigger] sorted@[j]).0,
            forall|a: int, b: int|
                0 <= a < b < sorted@.len() ==> ranks_before(
                    scores,
                    sorted@[a].0 as int,
                    sorted@[b].0 as int,
                ),
        decreases n - i,
    {
        r.push(sorted[i].0);
        i += 1;
    }
    proof {
        assert(cands@.take(n as int) =~= cands@);
        assert forall|a: int, b: int| 0 <= a < b < r@.len() implies ranks_before(
            scores,
            r@[a] as int,
            r@[b] as int,
        ) by {
            assert(r@[a] == sorted@[a].0 && r@[b] == sorted@[b].0);
        }
        let rs = r@.map_values(|v: usize| v as int);
        assert forall|x: int| #![trigger has_index(cands@, x)]
            has_index(cands@, x) <==> rs.contains(x) by {
            assert(has_index(sorted@, x) <==> has_index(cands@.take(n as int), x));
            if has_index(sorted@, x) {
                let i = choose|i: int| 0 <= i < sorted@.len() && sorted@[i].0 as int == x;
                assert(rs[i] == x);
            }
            if rs.contains(x) {
                let i = choose|i: int| 0 <= i < rs.len() && rs[i] == x;
                assert(sorted@[i].0 as int == x);
            }
        }
    }
    r
}

/// The entries being searched and the result of the last search.
pub struct SearchContext {
    pub user_desktop_files: Rc<Vec<XdgDesktopEntry>>,
    pub result_cache: SearchResult,
}

impl Default for SearchContext {
    fn default() -> (context: Self)
        ensures
            context.user_desktop_files@.len() == 0,
            context.result_cache@.len() == 0,
    {
        SearchContext { user_desktop_files: Rc::new(Vec::new()), result_cache: Vec::new() }
    }
}

impl SearchContext {
    /// Replaces the entries that are searched.
    pub fn set_desktop_files(&mut self, user_desktop_files: Rc<Vec<XdgDesktopEntry>>)
        ensures
            final(self).user_desktop_files@ == user_desktop_files@,
            final(self).result_cache@ == old(self).result_cache@,
    {
        self.user_desktop_files = user_desktop_files;
    }
}

/// The positions of the entries that match `query_string`, best first.
pub fn fetch_search_results(context: &SearchContext, query_string: String) -> (results: SearchResult)
    ensures
        search_results_for(results@, context.user_desktop_files@, query_string@),
{
    let n = query_string.as_str().unicode_len();
    let mut query: String;
    if n == 1 && query_string.as_str().get_char(0) == '\n' {
        assert(query_string@ =~= seq!['\n']);
        query = String::new();
        proof {
            assert(ascii_lowercase(query@) =~= query@);
        }
    } else if n == 0 {
        return Vec::new();
    } else {
        proof {
            if query_string@ == seq!['\n'] {
                assert(query_string@[0] == '\n');
            }
        }
        query = query_string;
    }
    make_ascii_lowercase(&mut query);
    let files: &Vec<XdgDesktopEntry> = &*context.user_desktop_files;
    let cands = collect_candidates(files, query.as_str());
    let ghost scores = scores_for(entry_names(files@), query@);
    proof {
        let c = cand_indices(cands@);
        let m = matches_upto(scores, scores.len() as int);
        lemma_matches_props(scores, scores.len() as int);
        assert(c == search_candidates(scores));
        assert(c.len() <= m.len());
        assert forall|i: int| 0 <= i < c.len() implies c[i] == m[i] by {
            if m.len() > MAX_SEARCH_RESULTS {
                assert(c =~= m.take(MAX_SEARCH_RESULTS as int));
            }
        }
        assert forall|i: int, j: int| 0 <= i < j < cands@.len() implies cands@[i].0 < cands@[j].0 by {
            assert(c[i] == cands@[i].0 as int && c[j] == cands@[j].0 as int);
            assert(c[i] == m[i] && c[j] == m[j]);
        }
    }
    let r = rank_candidates(&cands, Ghost(scores));
    proof {
        let c = cand_indices(cands@);
        let rs = r@.map_values(|v: usize| v as int);
        assert forall|x: int| rs.to_set().contains(x) <==> c.to_set().contains(x) by {
            assert(has_index(cands@, x) <==> rs.contains(x));
            if has_index(cands@, x) {
                let i = choose|i: int| 0 <= i < cands@.len() && cands@[i].0 as int == x;
                assert(c[i] == x);
            }
            if c.contains(x) {
                let i = choose|i: int| 0 <= i < c.len() && c[i] == x;
                assert(cands@[i].0 as int == x);
                assert(has_index(cands@, x));
            }
        }
        assert(rs.to_set() =~= c.to_set());
        assert forall|i: int, j: int| 0 <= i < j < rs.len() implies ranks_before(scores, rs[i], rs[j]) by {
            assert(rs[i] == r@[i] as int && rs[j] == r@[j] as int);
        }
    }
    r
}

/// Runs the search for `buffer` and remembers its result.
pub fn refetch_results(search_context: &mut SearchContext, buffer: String) -> (results: SearchResult)
    ensures
        search_results_for(results@, old(search_context).user_desktop_files@, buffer@),
        final(search_context).result_cache@ == results@,
        final(search_context).user_desktop_files == old(search_context).user_desktop_files,
{
    let search_results = fetch_search_results(&*search_context, buffer);
    search_context.result_cache = search_results.clone();
    search_results
}

/// The entry position at place `idx` of the last search result.
pub fn get_xdg_index_from_last_search_result_idx(context: &SearchContext, idx: usize) -> (r: Option<
    usize,
>)
    ensures
        r == (if idx < context.result_cache@.len() {
            Some(context.result_cache@[idx as int])
        } else {
            None
        }),
{
    if idx < context.result_cache.len() {
        Some(context.result_cache[idx])
    } else {
        None
    }
}

} // verus!
