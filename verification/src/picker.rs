//! The list picker: items, filtering (regular expression or fuzzy), and the
//! selection that moves through the matching items.
use vstd::prelude::*;
use regex::RegexBuilder;
use crate::text::{chars_of, contains_str, has_substring, occurs_at, push_str, string_of, text_fits, trim_seq, trimmed};
use crate::width::{display_w, display_width, strings_view};
use crate::composer::LoginTarget;

verus! {

/// What a confirmed picker selection is used for.
#[derive(Clone, Copy, Debug, PartialEq, Eq, Structural)]
pub enum PickerAction {
    SelectModel,
    SelectTitleModel,
    LoginProvider,
    LogoutProvider,
    InsertSkillCommand,
    InsertFilePath,
    ResumeSession,
    Config,
    Doctor,
}

impl PickerAction {
    /// Whether the space bar confirms the selection (settings-like pickers),
    /// rather than being typed into the filter.
    pub fn space_confirms_selection(self) -> (b: bool)
        ensures
            b <==> (self == PickerAction::Config || self == PickerAction::Doctor),
    {
        match self {
            PickerAction::Config | PickerAction::Doctor => true,
            PickerAction::SelectModel
            | PickerAction::SelectTitleModel
            | PickerAction::LoginProvider
            | PickerAction::LogoutProvider
            | PickerAction::InsertSkillCommand
            | PickerAction::InsertFilePath
            | PickerAction::ResumeSession => false,
        }
    }
}

/// Colour class of a picker badge.
#[derive(Clone, Copy, Debug, PartialEq, Eq, Structural)]
pub enum PickerBadgeTone {
    Selected,
    Favorite,
    Healthy,
    Warning,
}

/// A short tag shown beside a picker item.
#[derive(Clone, Debug)]
pub struct PickerBadge {
    pub text: String,
    pub tone: PickerBadgeTone,
}

/// One row of a picker.
#[derive(Clone, Debug)]
pub struct PickerItem {
    pub label: String,
    pub detail: Option<String>,
    pub preview: Option<String>,
    pub badge: Option<PickerBadge>,
    pub value: String,
}

// ---------------------------------------------------------------------
// Fuzzy matching
// ---------------------------------------------------------------------

/// Characters after which a match counts as the start of a path component
/// or word.
pub open spec fn is_boundary_char(c: char) -> bool {
    c == '/' || c == '\\' || c == '_' || c == '-' || c == '.' || c == ' '
}

/// Whether `ch` separates words or path components.
pub fn is_word_boundary(ch: char) -> (b: bool)
    ensures
        b == is_boundary_char(ch),
{
    ch == '/' || ch == '\\' || ch == '_' || ch == '-' || ch == '.' || ch == ' '
}

/// An optional index as an optional integer.
pub open spec fn opt_int(o: Option<usize>) -> Option<int> {
    match o {
        Some(p) => Some(p as int),
        None => None,
    }
}

/// Bonus for matching at `index`: twelve when it directly follows the
/// previous match, twenty at the start or after a boundary character.
pub open spec fn bonus(h: Seq<char>, index: int, prev: Option<int>) -> int {
    (if prev matches Some(p) && p + 1 == index {
        12int
    } else {
        0int
    }) + (if index == 0 || is_boundary_char(h[index - 1]) {
        20int
    } else {
        0int
    })
}

/// The bonus of matching `haystack[index]`, given the previous match.
pub fn fuzzy_character_bonus(haystack: &[char], index: usize, previous_match: Option<usize>) -> (b: i64)
    requires
        index <= haystack@.len(),
        previous_match matches Some(p) ==> p < usize::MAX,
    ensures
        b == bonus(haystack@, index as int, opt_int(previous_match)),
{
    let mut bonus: i64 = 0;
    if let Some(previous) = previous_match {
        if previous + 1 == index {
            bonus += 12;
        }
    }
    if index == 0 || is_word_boundary(haystack[index - 1]) {
        bonus += 20;
    }
    bonus
}

/// Among the positions in `start..end` holding `c`, the one with the
/// highest bonus; the last of them on a tie.
pub open spec fn best_match(h: Seq<char>, c: char, start: int, end: int, prev: Option<int>) -> Option<int>
    decreases end - start,
{
    if end <= start {
        None
    } else {
        let rest = best_match(h, c, start, end - 1, prev);
        if h[end - 1] == c {
            match rest {
                None => Some(end - 1),
                Some(j) => if bonus(h, end - 1, prev) >= bonus(h, j, prev) {
                    Some(end - 1)
                } else {
                    Some(j)
                },
            }
        } else {
            rest
        }
    }
}

pub proof fn lemma_best_match_range(h: Seq<char>, c: char, start: int, end: int, prev: Option<int>)
    ensures
        best_match(h, c, start, end, prev) matches Some(i) ==> start <= i < end && h[i] == c,
    decreases end - start,
{
    if end > start {
        lemma_best_match_range(h, c, start, end - 1, prev);
    }
}

/// The fuzzy walk over the needle: `None` once a needle character cannot be
/// placed, else the running score, the first and the last matched position
/// and where the next search starts.
pub open spec fn fuzzy_walk(h: Seq<char>, n: Seq<char>) -> Option<(int, Option<int>, Option<int>, int)>
    decreases n.len(),
{
    if n.len() == 0 {
        Some((0int, None, None, 0int))
    } else {
        match fuzzy_walk(h, n.drop_last()) {
            None => None,
            Some((score, first, prev, start)) => match best_match(h, n.last(), start, h.len() as int, prev) {
                None => None,
                Some(i) => Some(
                    (
                        score + 10 + bonus(h, i, prev),
                        if first is None {
                            Some(i)
                        } else {
                            first
                        },
                        Some(i),
                        i + 1,
                    ),
                ),
            },
        }
    }
}

/// The fuzzy score of `n` in `h` (both already lowercased): `None` when the
/// needle's characters do not occur in order, else the walk's score less
/// the position of the last match.
pub open spec fn fuzzy_score(h: Seq<char>, n: Seq<char>) -> Option<int> {
    match fuzzy_walk(h, n) {
        None => None,
        Some((score, first, prev, _start)) => {
            let f = match first {
                Some(x) => x,
                None => 0,
            };
            let p = match prev {
                Some(x) => x,
                None => 0,
            };
            Some(score - f - (p - f))
        },
    }
}

/// Longest haystack (in characters) whose score arithmetic fits in an
/// `i64`; far beyond what any machine holds.
pub const FUZZY_MAX_CHARS: u64 = 0x0100_0000_0000_0000;

pub open spec fn as_int_opt(o: Option<i64>) -> Option<int> {
    match o {
        Some(v) => Some(v as int),
        None => None,
    }
}

/// The fuzzy score of an already lowercased needle in an already
/// lowercased haystack.
pub fn fuzzy_score_chars(haystack: &Vec<char>, needle: &Vec<char>) -> (r: Option<i64>)
    requires
        haystack@.len() <= FUZZY_MAX_CHARS,
    ensures
        as_int_opt(r) == fuzzy_score(haystack@, needle@),
{
    let h = haystack.as_slice();
    let hlen = h.len();
    let mut score: i64 = 0;
    let mut first_match: Option<usize> = None;
    let mut previous_match: Option<usize> = None;
    let mut search_start: usize = 0;
    let mut k: usize = 0;
    while k < needle.len()
        invariant
            h@ == haystack@,
            hlen == h@.len(),
            hlen <= FUZZY_MAX_CHARS,
            k <= needle@.len(),
            fuzzy_walk(h@, needle@.take(k as int)) == Some(
                (score as int, opt_int(first_match), opt_int(previous_match), search_start as int),
            ),
            search_start <= hlen,
            0 <= score <= 42 * search_start,
            previous_match matches Some(p) ==> p < hlen && search_start == p + 1,
            previous_match is None ==> search_start == 0 && first_match is None,
            first_match matches Some(f) ==> f < hlen && previous_match is Some && f <= previous_match->0,
        decreases needle@.len() - k,
    {
        let c = needle[k];
        assert(needle@.take(k as int + 1).drop_last() =~= needle@.take(k as int));
        let mut best: Option<usize> = None;
        let mut best_bonus: i64 = 0;
        let mut i: usize = search_start;
        while i < hlen
            invariant
                h@ == haystack@,
                hlen == h@.len(),
                search_start <= i <= hlen,
                previous_match matches Some(p) ==> p < hlen,
                opt_int(best) == best_match(h@, c, search_start as int, i as int, opt_int(previous_match)),
                best matches Some(b) ==> best_bonus == bonus(h@, b as int, opt_int(previous_match)),
            decreases hlen - i,
        {
            if h[i] == c {
                let b = fuzzy_character_bonus(h, i, previous_match);
                match best {
                    None => {
                        best = Some(i);
                        best_bonus = b;
                    },
                    Some(_) => {
                        if b >= best_bonus {
                            best = Some(i);
                            best_bonus = b;
                        }
                    },
                }
            }
            i += 1;
        }
        proof {
            lemma_best_match_range(h@, c, search_start as int, hlen as int, opt_int(previous_match));
        }
        match best {
            None => {
                proof {
                    lemma_walk_stuck(h@, needle@, k as int);
                }
                return None;
            },
            Some(index) => {
                if first_match.is_none() {
                    first_match = Some(index);
                }
                score = score + 10 + best_bonus;
                previous_match = Some(index);
                search_start = index + 1;
            },
        }
        k += 1;
    }
    assert(needle@.take(needle@.len() as int) =~= needle@);
    let f: i64 = match first_match {
        Some(x) => x as i64,
        None => 0,
    };
    let p: i64 = match previous_match {
        Some(x) => x as i64,
        None => 0,
    };
    Some(score - f - (p - f))
}

/// Once the walk fails on a prefix of the needle, it fails on the whole.
proof fn lemma_walk_stuck(h: Seq<char>, n: Seq<char>, k: int)
    requires
        0 <= k < n.len(),
        fuzzy_walk(h, n.take(k + 1)) is None,
    ensures
        fuzzy_walk(h, n) is None,
    decreases n.len() - k,
{
    if k + 1 == n.len() {
        assert(n.take(k + 1) =~= n);
    } else {
        assert(n.take(k + 2).drop_last() =~= n.take(k + 1));
        lemma_walk_stuck(h, n, k + 1);
    }
}


/// What `str::to_lowercase` gives for `s`: its Unicode lowercase mapping.
pub uninterp spec fn str_lowercase(s: Seq<char>) -> Seq<char>;

/// `str::to_lowercase` of std: the lowercase mapping of `s`, which depends
/// on `s` alone (no locale). Nothing more is stated of it.
#[verifier::external_body]
fn lowercase(s: &str) -> (r: String)
    ensures
        r@ == str_lowercase(s@),
{
    s.to_lowercase()
}

/// The fuzzy score of `needle` in `haystack`, both lowercased; `None` as
/// well for a lowercased haystack beyond `FUZZY_MAX_CHARS`.
pub open spec fn fuzzy_match_spec(haystack: Seq<char>, needle: Seq<char>) -> Option<int> {
    let h = str_lowercase(haystack);
    if h.len() <= FUZZY_MAX_CHARS {
        fuzzy_score(h, str_lowercase(needle))
    } else {
        None
    }
}

/// Scores how well `needle` matches `haystack`, ignoring case: each needle
/// character, in order, is placed on the best-rewarded later occurrence in
/// the haystack.
pub fn fuzzy_match_score(haystack: &str, needle: &str) -> (r: Option<i64>)
    ensures
        as_int_opt(r) == fuzzy_match_spec(haystack@, needle@),
{
    let h = lowercase(haystack);
    let n = lowercase(needle);
    let hc = chars_of(h.as_str());
    let nc = chars_of(n.as_str());
    if hc.len() as u64 > FUZZY_MAX_CHARS {
        return None;
    }
    fuzzy_score_chars(&hc, &nc)
}

/// The fuzzy score of text `i` against the filter `f`.
pub open spec fn item_score(texts: Seq<Seq<char>>, f: Seq<char>, i: int) -> Option<int> {
    fuzzy_match_spec(texts[i], f)
}

/// The fuzzy score of text `i`, zero when it does not match.
pub open spec fn score_of(texts: Seq<Seq<char>>, f: Seq<char>, i: int) -> int {
    match item_score(texts, f, i) {
        Some(s) => s,
        None => 0,
    }
}

/// Where an item scoring `s` goes in `ranked`: before the first entry,
/// from `p` on, that scores lower.
pub open spec fn insert_position(texts: Seq<Seq<char>>, f: Seq<char>, ranked: Seq<usize>, s: int, p: int) -> int
    decreases ranked.len() - p,
{
    if p >= ranked.len() {
        ranked.len() as int
    } else if score_of(texts, f, ranked[p] as int) < s {
        p
    } else {
        insert_position(texts, f, ranked, s, p + 1)
    }
}

/// The matching texts among the first `n`, best score first and, among
/// equal scores, in the order given.
pub open spec fn fuzzy_ranking(texts: Seq<Seq<char>>, f: Seq<char>, n: int) -> Seq<usize>
    decreases n,
{
    if n <= 0 {
        Seq::empty()
    } else {
        let prev = fuzzy_ranking(texts, f, n - 1);
        match item_score(texts, f, n - 1) {
            Some(s) => prev.insert(insert_position(texts, f, prev, s, 0), (n - 1) as usize),
            None => prev,
        }
    }
}

proof fn lemma_insert_position(texts: Seq<Seq<char>>, f: Seq<char>, ranked: Seq<usize>, s: int, p: int)
    requires
        0 <= p <= ranked.len(),
    ensures
        p <= insert_position(texts, f, ranked, s, p) <= ranked.len(),
        forall|q: int| p <= q < insert_position(texts, f, ranked, s, p) ==> score_of(texts, f, ranked[q] as int) >= s,
        insert_position(texts, f, ranked, s, p) < ranked.len() ==> score_of(
            texts,
            f,
            ranked[insert_position(texts, f, ranked, s, p)] as int,
        ) < s,
    decreases ranked.len() - p,
{
    if p < ranked.len() && score_of(texts, f, ranked[p] as int) >= s {
        lemma_insert_position(texts, f, ranked, s, p + 1);
    }
}

/// Whether entry `a` of a ranking comes before entry `b`: a higher score,
/// or the same score and an earlier item.
pub open spec fn ranks_before(texts: Seq<Seq<char>>, f: Seq<char>, a: usize, b: usize) -> bool {
    score_of(texts, f, a as int) > score_of(texts, f, b as int) || (score_of(texts, f, a as int)
        == score_of(texts, f, b as int) && a < b)
}

/// The fuzzy ranking lists every matching item exactly once and no other,
/// best score first, equal scores in the order given.
pub proof fn lemma_fuzzy_ranking_ordered(texts: Seq<Seq<char>>, f: Seq<char>, n: int)
    requires
        0 <= n <= texts.len(),
        texts.len() <= usize::MAX,
    ensures
        forall|j: int| 0 <= j < fuzzy_ranking(texts, f, n).len() ==> {
            let i = #[trigger] fuzzy_ranking(texts, f, n)[j];
            i < n && item_score(texts, f, i as int) is Some
        },
        forall|i: int| 0 <= i < n && item_score(texts, f, i) is Some ==> fuzzy_ranking(texts, f, n).contains(
            i as usize,
        ),
        forall|j1: int, j2: int|
            0 <= j1 < j2 < fuzzy_ranking(texts, f, n).len() ==> ranks_before(
                texts,
                f,
                fuzzy_ranking(texts, f, n)[j1],
                fuzzy_ranking(texts, f, n)[j2],
            ),
    decreases n,
{
    if n > 0 {
        lemma_fuzzy_ranking_ordered(texts, f, n - 1);
        let prev = fuzzy_ranking(texts, f, n - 1);
        match item_score(texts, f, n - 1) {
            Some(s) => {
                lemma_insert_position(texts, f, prev, s, 0);
                let p = insert_position(texts, f, prev, s, 0);
                let r = prev.insert(p, (n - 1) as usize);
                assert(r == fuzzy_ranking(texts, f, n));
                assert forall|j: int| 0 <= j < r.len() implies ({
                    let i = #[trigger] r[j];
                    i < n && item_score(texts, f, i as int) is Some
                }) by {
                    if j > p {
                        assert(r[j] == prev[j - 1]);
                    }
                }
                assert forall|i: int| 0 <= i < n && item_score(texts, f, i) is Some implies r.contains(
                    i as usize,
                ) by {
                    if i < n - 1 {
                        let j = choose|j: int| 0 <= j < prev.len() && prev[j] == i as usize;
                        if j < p {
                            assert(r[j] == i as usize);
                        } else {
                            assert(r[j + 1] == i as usize);
                        }
                    } else {
                        assert(r[p] == i as usize);
                    }
                }
                assert forall|j1: int, j2: int| 0 <= j1 < j2 < r.len() implies ranks_before(
                    texts,
                    f,
                    r[j1],
                    r[j2],
                ) by {
                    if j1 < p && j2 < p {
                        assert(r[j1] == prev[j1] && r[j2] == prev[j2]);
                    } else if j1 < p && j2 == p {
                        assert(r[j1] == prev[j1]);
                        assert(score_of(texts, f, prev[j1] as int) >= s);
                    } else if j1 < p {
                        assert(r[j1] == prev[j1] && r[j2] == prev[j2 - 1]);
                    } else if j1 == p {
                        assert(r[j2] == prev[j2 - 1]);
                        assert(score_of(texts, f, prev[p] as int) < s);
                        if j2 - 1 > p {
                            assert(ranks_before(texts, f, prev[p], prev[j2 - 1]));
                        }
                    } else {
                        assert(r[j1] == prev[j1 - 1] && r[j2] == prev[j2 - 1]);
                    }
                }
            },
            None => {},
        }
    }
}

/// The indices of the texts that `filter` fuzzily matches, best score
/// first and equal scores in the order given.
pub fn fuzzy_rank(texts: &[String], filter: &str) -> (r: Vec<usize>)
    ensures
        r@ == fuzzy_ranking(strings_view(texts@), filter@, texts@.len() as int),
{
    let ghost tv = strings_view(texts@);
    let mut ranked: Vec<usize> = Vec::new();
    let mut scores: Vec<i64> = Vec::new();
    let n = texts.len();
    let mut i: usize = 0;
    while i < n
        invariant
            n == texts@.len(),
            tv == strings_view(texts@),
            i <= n,
            ranked@ == fuzzy_ranking(tv, filter@, i as int),
            scores@.len() == ranked@.len(),
            forall|j: int| 0 <= j < ranked@.len() ==> scores@[j] as int == score_of(tv, filter@, #[trigger] ranked@[j] as int),
        decreases n - i,
    {
        let scored = fuzzy_match_score(texts[i].as_str(), filter);
        assert(tv[i as int] == texts@[i as int]@);
        match scored {
            None => {},
            Some(s) => {
                let mut p: usize = 0;
                while p < ranked.len() && scores[p] >= s
                    invariant
                        p <= ranked@.len(),
                        scores@.len() == ranked@.len(),
                        forall|j: int| 0 <= j < ranked@.len() ==> scores@[j] as int == score_of(tv, filter@, #[trigger] ranked@[j] as int),
                        insert_position(tv, filter@, ranked@, s as int, 0) == insert_position(tv, filter@, ranked@, s as int, p as int),
                    decreases ranked@.len() - p,
                {
                    p += 1;
                }
                ranked.insert(p, i);
                scores.insert(p, s);
                proof {
                    assert forall|j: int| 0 <= j < ranked@.len() implies scores@[j] as int == score_of(tv, filter@, #[trigger] ranked@[j] as int) by {
                        if j == p as int {
                        } else if j < p {
                        } else {
                        }
                    }
                }
            },
        }
        i += 1;
    }
    ranked
}

/// The values of the items, the texts a fuzzy filter is matched against.
pub open spec fn item_texts(items: Seq<PickerItem>) -> Seq<Seq<char>> {
    Seq::new(items.len(), |i: int| items[i].value@)
}

/// The matching items ordered by fuzzy score of their values (best first,
/// ties in the order given), for an already trimmed, non-empty filter.
pub fn fuzzy_matching_indices(items: &[PickerItem], filter: &str) -> (r: Vec<usize>)
    ensures
        r@ == fuzzy_ranking(item_texts(items@), filter@, items@.len() as int),
{
    let mut values: Vec<String> = Vec::new();
    let mut i: usize = 0;
    while i < items.len()
        invariant
            i <= items@.len(),
            strings_view(values@) == item_texts(items@).take(i as int),
        decreases items@.len() - i,
    {
        let v = items[i].value.clone();
        assert(v@ == items@[i as int].value@);
        let ghost before = values@;
        values.push(v);
        assert(strings_view(values@) =~= strings_view(before).push(v@));
        assert(item_texts(items@).take(i as int + 1) =~= item_texts(items@).take(i as int).push(v@));
        i += 1;
    }
    assert(item_texts(items@).take(items@.len() as int) =~= item_texts(items@));
    fuzzy_rank(values.as_slice(), filter)
}

// ---------------------------------------------------------------------
// Regular-expression filtering
// ---------------------------------------------------------------------

#[verifier::external_type_specification]
#[verifier::external_body]
pub struct ExRegex(regex::Regex);

/// Whether `regex` accepts `pattern` as a case-insensitive expression.
pub uninterp spec fn case_insensitive_regex_builds(pattern: Seq<char>) -> bool;

/// Whether the case-insensitive expression `pattern` matches somewhere in
/// `haystack`.
pub uninterp spec fn case_insensitive_regex_matches(pattern: Seq<char>, haystack: Seq<char>) -> bool;

/// A compiled case-insensitive filter expression, with the pattern it was
/// compiled from.
pub struct FilterRegex {
    pattern: Ghost<Seq<char>>,
    compiled: regex::Regex,
}

impl FilterRegex {
    pub closed spec fn pattern(&self) -> Seq<char> {
        self.pattern@
    }
}

/// `RegexBuilder::new(pattern).case_insensitive(true).build()` of `regex`:
/// compiles the pattern, or fails on a pattern it rejects. Whether it
/// succeeds is named, not stated.
#[verifier::external_body]
fn build_filter_regex(pattern: &str) -> (r: Option<FilterRegex>)
    ensures
        r is Some <==> case_insensitive_regex_builds(pattern@),
        r matches Some(re) ==> re.pattern() == pattern@,
{
    match RegexBuilder::new(pattern).case_insensitive(true).build() {
        Ok(compiled) => Some(FilterRegex { pattern: Ghost(pattern@), compiled }),
        Err(_) => None,
    }
}

/// `Regex::is_match` of `regex`: whether the compiled expression matches
/// somewhere in `haystack`. The answer is named, not stated.
#[verifier::external_body]
fn filter_regex_is_match(re: &FilterRegex, haystack: &str) -> (b: bool)
    ensures
        b == case_insensitive_regex_matches(re.pattern(), haystack@),
{
    re.compiled.is_match(haystack)
}

/// Characters that `regex` treats as syntax.
pub open spec fn is_regex_meta(c: char) -> bool {
    c == '\\' || c == '.' || c == '+' || c == '*' || c == '?' || c == '(' || c == ')' || c == '|'
        || c == '[' || c == ']' || c == '{' || c == '}' || c == '^' || c == '$' || c == '#' || c
        == '&' || c == '-' || c == '~'
}

/// `s` with a backslash before every syntax character.
pub open spec fn regex_escaped(s: Seq<char>) -> Seq<char>
    decreases s.len(),
{
    if s.len() == 0 {
        Seq::empty()
    } else {
        regex_escaped(s.drop_last()) + if is_regex_meta(s.last()) {
            seq!['\\', s.last()]
        } else {
            seq![s.last()]
        }
    }
}

/// `regex::escape`: the text with a backslash before each of its syntax
/// characters (`is_meta_character` of `regex-syntax`), so that it matches
/// itself literally.
#[verifier::external_body]
fn regex_escape(s: &str) -> (r: String)
    ensures
        r@ == regex_escaped(s@),
{
    regex::escape(s)
}

/// The text of an optional string, empty when absent.
pub open spec fn opt_text(o: Option<String>) -> Seq<char> {
    match o {
        Some(t) => t@,
        None => Seq::empty(),
    }
}

/// The text of an optional badge, empty when absent.
pub open spec fn badge_text(o: Option<PickerBadge>) -> Seq<char> {
    match o {
        Some(b) => b.text@,
        None => Seq::empty(),
    }
}

/// What a filter expression is matched against: label, value, detail,
/// preview and badge text, separated by single spaces.
pub open spec fn haystack_of(item: PickerItem) -> Seq<char> {
    item.label@ + seq![' '] + item.value@ + seq![' '] + opt_text(item.detail) + seq![' ']
        + opt_text(item.preview) + seq![' '] + badge_text(item.badge)
}

/// Everything an item shows can be filtered on: its label, value,
/// detail, preview and badge text each occur in the text a filter is
/// matched against, which holds nothing more than those and a separator
/// between each two.
pub proof fn lemma_haystack_holds_every_part(item: PickerItem)
    ensures
        has_substring(haystack_of(item), item.label@),
        has_substring(haystack_of(item), item.value@),
        has_substring(haystack_of(item), opt_text(item.detail)),
        has_substring(haystack_of(item), opt_text(item.preview)),
        has_substring(haystack_of(item), badge_text(item.badge)),
        haystack_of(item).len() == item.label@.len() + item.value@.len() + opt_text(item.detail).len() + opt_text(
            item.preview,
        ).len() + badge_text(item.badge).len() + 4,
{
    let h = haystack_of(item);
    let l = item.label@;
    let v = item.value@;
    let d = opt_text(item.detail);
    let p = opt_text(item.preview);
    let b = badge_text(item.badge);
    let i1: int = l.len() as int + 1;
    let i2: int = i1 + v.len() + 1;
    let i3: int = i2 + d.len() + 1;
    let i4: int = i3 + p.len() + 1;
    assert(h.subrange(0, l.len() as int) =~= l);
    assert(occurs_at(h, l, 0));
    assert(h.subrange(i1, i1 + v.len()) =~= v);
    assert(occurs_at(h, v, i1));
    assert(h.subrange(i2, i2 + d.len()) =~= d);
    assert(occurs_at(h, d, i2));
    assert(h.subrange(i3, i3 + p.len()) =~= p);
    assert(occurs_at(h, p, i3));
    assert(h.subrange(i4, i4 + b.len()) =~= b);
    assert(occurs_at(h, b, i4));
}

/// The text a filter expression is matched against.
pub fn picker_haystack(item: &PickerItem) -> (h: String)
    ensures
        h@ == haystack_of(*item),
{
    let mut h = String::new();
    push_str(&mut h, item.label.as_str());
    h.push(' ');
    push_str(&mut h, item.value.as_str());
    h.push(' ');
    match &item.detail {
        Some(t) => push_str(&mut h, t.as_str()),
        None => {},
    }
    h.push(' ');
    match &item.preview {
        Some(t) => push_str(&mut h, t.as_str()),
        None => {},
    }
    h.push(' ');
    match &item.badge {
        Some(b) => push_str(&mut h, b.text.as_str()),
        None => {},
    }
    assert(h@ =~= haystack_of(*item));
    h
}

/// The indices below `n` whose haystack the expression `f` matches, in
/// order.
pub open spec fn regex_matching(items: Seq<PickerItem>, f: Seq<char>, n: int) -> Seq<usize>
    decreases n,
{
    if n <= 0 {
        Seq::empty()
    } else {
        let prev = regex_matching(items, f, n - 1);
        if case_insensitive_regex_matches(f, haystack_of(items[n - 1])) {
            prev.push((n - 1) as usize)
        } else {
            prev
        }
    }
}

/// All indices below `n`, in order.
pub open spec fn all_indices(n: nat) -> Seq<usize> {
    Seq::new(n, |i: int| i as usize)
}

/// The items a regular-expression filter keeps: all of them for a blank
/// filter, none for a filter that does not compile, else those whose
/// haystack it matches (ignoring case).
pub open spec fn picker_matches(items: Seq<PickerItem>, filter: Seq<char>) -> Seq<usize> {
    let f = trim_seq(filter);
    if f.len() == 0 {
        all_indices(items.len())
    } else if !case_insensitive_regex_builds(f) {
        Seq::empty()
    } else {
        regex_matching(items, f, items.len() as int)
    }
}

/// The items a fuzzy filter keeps: all of them for a blank filter, else the
/// fuzzy ranking of the trimmed filter.
pub open spec fn fuzzy_picker_matches(items: Seq<PickerItem>, filter: Seq<char>) -> Seq<usize> {
    let f = trim_seq(filter);
    if f.len() == 0 {
        all_indices(items.len())
    } else {
        fuzzy_ranking(item_texts(items), f, items.len() as int)
    }
}

fn all_indices_vec(n: usize) -> (r: Vec<usize>)
    ensures
        r@ == all_indices(n as nat),
{
    let mut r: Vec<usize> = Vec::new();
    let mut i: usize = 0;
    while i < n
        invariant
            i <= n,
            r@ == all_indices(i as nat),
        decreases n - i,
    {
        r.push(i);
        i += 1;
        assert(r@ =~= all_indices(i as nat));
    }
    r
}

/// The indices of the items that the filter, as a case-insensitive
/// regular expression, matches.
pub fn picker_matching_indices(items: &[PickerItem], filter: &str) -> (r: Vec<usize>)
    ensures
        r@ == picker_matches(items@, filter@),
{
    let f = trimmed(filter);
    if f.len() == 0 {
        return all_indices_vec(items.len());
    }
    let pattern = string_of(&f);
    let regex = match build_filter_regex(pattern.as_str()) {
        Some(re) => re,
        None => return Vec::new(),
    };
    let mut r: Vec<usize> = Vec::new();
    let n = items.len();
    let mut i: usize = 0;
    while i < n
        invariant
            n == items@.len(),
            i <= n,
            regex.pattern() == trim_seq(filter@),
            r@ == regex_matching(items@, trim_seq(filter@), i as int),
        decreases n - i,
    {
        let hay = picker_haystack(&items[i]);
        if filter_regex_is_match(&regex, hay.as_str()) {
            r.push(i);
        }
        i += 1;
    }
    r
}

/// The indices of the items that the filter fuzzily matches, best first.
pub fn fuzzy_picker_matching_indices(items: &[PickerItem], filter: &str) -> (r: Vec<usize>)
    ensures
        r@ == fuzzy_picker_matches(items@, filter@),
{
    let f = trimmed(filter);
    if f.len() == 0 {
        return all_indices_vec(items.len());
    }
    let pattern = string_of(&f);
    fuzzy_matching_indices(items, pattern.as_str())
}

proof fn lemma_regex_matching(items: Seq<PickerItem>, f: Seq<char>, n: int)
    requires
        0 <= n <= items.len(),
        items.len() <= usize::MAX,
    ensures
        forall|j: int| 0 <= j < regex_matching(items, f, n).len() ==> #[trigger] regex_matching(items, f, n)[j] < n,
        forall|j1: int, j2: int|
            0 <= j1 < j2 < regex_matching(items, f, n).len() ==> regex_matching(items, f, n)[j1]
                < regex_matching(items, f, n)[j2],
    decreases n,
{
    if n > 0 {
        lemma_regex_matching(items, f, n - 1);
        let prev = regex_matching(items, f, n - 1);
        let r = regex_matching(items, f, n);
        if case_insensitive_regex_matches(f, haystack_of(items[n - 1])) {
            assert(r == prev.push((n - 1) as usize));
            assert(r[r.len() - 1] == n - 1);
            assert forall|j: int| 0 <= j < r.len() implies #[trigger] r[j] < n by {
                if j < prev.len() {
                    assert(r[j] == prev[j]);
                }
            }
            assert forall|j1: int, j2: int| 0 <= j1 < j2 < r.len() implies r[j1] < r[j2] by {
                assert(r[j1] == prev[j1]);
                if j2 < prev.len() {
                    assert(r[j2] == prev[j2]);
                }
            }
        }
    }
}

/// The items a picker keeps: fuzzy or regular-expression filtering.
pub open spec fn matches_for(items: Seq<PickerItem>, filter: Seq<char>, fuzzy: bool) -> Seq<usize> {
    if fuzzy {
        fuzzy_picker_matches(items, filter)
    } else {
        picker_matches(items, filter)
    }
}

/// Every index a picker filter keeps is the index of an item, and none is
/// kept twice.
pub proof fn lemma_matches_are_distinct_items(items: Seq<PickerItem>, filter: Seq<char>, fuzzy: bool)
    requires
        items.len() <= usize::MAX,
    ensures
        forall|j: int|
            0 <= j < matches_for(items, filter, fuzzy).len() ==> #[trigger] matches_for(
                items,
                filter,
                fuzzy,
            )[j] < items.len(),
        forall|j1: int, j2: int|
            0 <= j1 < j2 < matches_for(items, filter, fuzzy).len() ==> matches_for(items, filter, fuzzy)[j1]
                != matches_for(items, filter, fuzzy)[j2],
{
    let f = trim_seq(filter);
    if f.len() > 0 {
        if fuzzy {
            lemma_fuzzy_ranking_ordered(item_texts(items), f, items.len() as int);
            let m = fuzzy_ranking(item_texts(items), f, items.len() as int);
            assert forall|j1: int, j2: int| 0 <= j1 < j2 < m.len() implies m[j1] != m[j2] by {
                assert(ranks_before(item_texts(items), f, m[j1], m[j2]));
            }
        } else {
            lemma_regex_matching(items, f, items.len() as int);
        }
    }
}

/// Index of the first occurrence of `x` in `m` at or after `j`; zero when
/// there is none.
pub open spec fn position_in(m: Seq<usize>, x: usize, j: int) -> int
    decreases m.len() - j,
{
    if j < 0 || j >= m.len() {
        0
    } else if m[j] == x {
        j
    } else {
        position_in(m, x, j + 1)
    }
}

proof fn lemma_position_in(m: Seq<usize>, x: usize, j: int)
    requires
        0 <= j,
    ensures
        m.len() > 0 ==> 0 <= position_in(m, x, j) < m.len(),
        (exists|k: int| j <= k < m.len() && m[k] == x) ==> {
            &&& j <= position_in(m, x, j) < m.len()
            &&& m[position_in(m, x, j)] == x
            &&& forall|k: int| j <= k < position_in(m, x, j) ==> m[k] != x
        },
        !(exists|k: int| j <= k < m.len() && m[k] == x) ==> position_in(m, x, j) == 0,
    decreases m.len() - j,
{
    if j < m.len() && m[j] != x {
        lemma_position_in(m, x, j + 1);
        if exists|k: int| j <= k < m.len() && m[k] == x {
            let k = choose|k: int| j <= k < m.len() && m[k] == x;
            assert(j + 1 <= k);
        }
    }
}

/// The selection after moving up: the match before the selected one, the
/// last match from the first (or from a selection that does not match),
/// unchanged when nothing matches.
pub open spec fn previous_selection(m: Seq<usize>, selected: usize) -> usize {
    if m.len() == 0 {
        selected
    } else {
        let p = position_in(m, selected, 0);
        if p == 0 {
            m.last()
        } else {
            m[p - 1]
        }
    }
}

/// The selection after moving down: the match after the selected one,
/// wrapping from the last to the first (a selection that does not match
/// counts as the first), unchanged when nothing matches.
pub open spec fn next_selection(m: Seq<usize>, selected: usize) -> usize {
    if m.len() == 0 {
        selected
    } else {
        m[(position_in(m, selected, 0) + 1) % (m.len() as int)]
    }
}

/// Moving the selection up and then down, or down and then up, returns to
/// the selected match when the matches are distinct.
pub proof fn lemma_selection_round_trip(m: Seq<usize>, selected: usize)
    requires
        forall|j1: int, j2: int| 0 <= j1 < j2 < m.len() ==> m[j1] != m[j2],
        m.contains(selected),
    ensures
        next_selection(m, previous_selection(m, selected)) == selected,
        previous_selection(m, next_selection(m, selected)) == selected,
{
    lemma_position_in(m, selected, 0);
    let p = position_in(m, selected, 0);
    let up = previous_selection(m, selected);
    let q = if p == 0 { m.len() - 1 } else { p - 1 };
    assert(up == m[q]);
    lemma_position_in(m, up, 0);
    assert(position_in(m, up, 0) == q) by {
        let r = position_in(m, up, 0);
        if r != q {
            assert(m[r] == m[q]);
            if r < q {
            } else {
            }
        }
    }
    if p == 0 {
        vstd::arithmetic::div_mod::lemma_mod_self_0(m.len() as int);
    } else {
        vstd::arithmetic::div_mod::lemma_small_mod(p as nat, m.len());
    }
    let down = next_selection(m, selected);
    let d = (p + 1) % (m.len() as int);
    assert(down == m[d]);
    lemma_position_in(m, down, 0);
    assert(position_in(m, down, 0) == d) by {
        let r = position_in(m, down, 0);
        if r != d {
            assert(m[r] == m[d]);
        }
    }
    if p + 1 == m.len() {
        vstd::arithmetic::div_mod::lemma_mod_self_0(m.len() as int);
        assert(d == 0);
    } else {
        vstd::arithmetic::div_mod::lemma_small_mod((p + 1) as nat, m.len());
        assert(d == p + 1);
    }
}

/// Index of the first occurrence of `x` in `m`, zero when there is none.
pub fn position_of(m: &[usize], x: usize) -> (p: usize)
    ensures
        p == position_in(m@, x, 0),
{
    let mut j: usize = 0;
    while j < m.len()
        invariant
            j <= m@.len(),
            forall|k: int| 0 <= k < j ==> m@[k] != x,
        decreases m@.len() - j,
    {
        if m[j] == x {
            proof {
                lemma_position_in(m@, x, 0);
            }
            return j;
        }
        j += 1;
    }
    proof {
        lemma_position_in(m@, x, 0);
    }
    0
}

// ---------------------------------------------------------------------
// The picker
// ---------------------------------------------------------------------

/// A filterable list of items with one selected entry.
#[derive(Clone, Debug)]
pub struct UiPicker {
    pub title: String,
    pub help: String,
    pub items: Vec<PickerItem>,
    pub selected: usize,
    pub filter: String,
    pub action: PickerAction,
}

/// Whether two pickers agree in everything but the selection.
pub open spec fn same_but_selection(a: UiPicker, b: UiPicker) -> bool {
    a.title == b.title && a.help == b.help && a.items == b.items && a.filter == b.filter && a.action
        == b.action
}

/// The first match, or `fallback` when nothing matches.
pub open spec fn first_or(m: Seq<usize>, fallback: usize) -> usize {
    if m.len() > 0 {
        m[0]
    } else {
        fallback
    }
}

impl UiPicker {
    /// The indices of the items the filter keeps, in display order: fuzzy
    /// ranking for file paths, a regular expression otherwise.
    pub open spec fn matches(&self) -> Seq<usize> {
        matches_for(self.items@, self.filter@, self.action == PickerAction::InsertFilePath)
    }

    /// A picker over `items` with an empty filter and the first item
    /// selected.
    pub fn new(title: &str, help: &str, items: Vec<PickerItem>, action: PickerAction) -> (p: Self)
        ensures
            p.title@ == title@,
            p.help@ == help@,
            p.items == items,
            p.selected == 0,
            p.filter@ == Seq::<char>::empty(),
            p.action == action,
    {
        UiPicker {
            title: String::from_str(title),
            help: String::from_str(help),
            items,
            selected: 0,
            filter: String::new(),
            action,
        }
    }

    /// The indices of the items the filter keeps, in display order.
    pub fn matching_indices(&self) -> (r: Vec<usize>)
        ensures
            r@ == self.matches(),
    {
        match self.action {
            PickerAction::InsertFilePath => fuzzy_picker_matching_indices(
                self.items.as_slice(),
                self.filter.as_str(),
            ),
            PickerAction::SelectModel
            | PickerAction::SelectTitleModel
            | PickerAction::LoginProvider
            | PickerAction::LogoutProvider
            | PickerAction::InsertSkillCommand
            | PickerAction::ResumeSession
            | PickerAction::Config
            | PickerAction::Doctor => picker_matching_indices(
                self.items.as_slice(),
                self.filter.as_str(),
            ),
        }
    }

    /// Moves the selection to the previous match, wrapping to the last.
    pub fn select_previous(&mut self)
        ensures
            same_but_selection(*final(self), *old(self)),
            final(self).selected == previous_selection(old(self).matches(), old(self).selected),
    {
        let m = self.matching_indices();
        if m.len() == 0 {
            return;
        }
        let p = position_of(m.as_slice(), self.selected);
        proof {
            lemma_position_in(m@, self.selected, 0);
        }
        self.selected = if p == 0 {
            m[m.len() - 1]
        } else {
            m[p - 1]
        };
    }

    /// Moves the selection to the next match, wrapping to the first.
    pub fn select_next(&mut self)
        ensures
            same_but_selection(*final(self), *old(self)),
            final(self).selected == next_selection(old(self).matches(), old(self).selected),
    {
        let m = self.matching_indices();
        if m.len() == 0 {
            return;
        }
        let p = position_of(m.as_slice(), self.selected);
        proof {
            lemma_position_in(m@, self.selected, 0);
        }
        self.selected = m[(p + 1) % m.len()];
    }

    /// Selects the first match, if any.
    pub fn select_first_match(&mut self)
        ensures
            same_but_selection(*final(self), *old(self)),
            final(self).selected == first_or(old(self).matches(), old(self).selected),
    {
        let m = self.matching_indices();
        if m.len() > 0 {
            self.selected = m[0];
        }
    }

    /// Appends `ch` to the filter and selects the first match.
    pub fn push_filter_char(&mut self, ch: char)
        ensures
            final(self).filter@ == old(self).filter@.push(ch),
            final(self).title == old(self).title,
            final(self).help == old(self).help,
            final(self).items == old(self).items,
            final(self).action == old(self).action,
            final(self).selected == first_or(final(self).matches(), old(self).selected),
    {
        self.filter.push(ch);
        self.select_first_match();
    }

    /// Removes the last filter character, if any, and selects the first
    /// match.
    pub fn pop_filter_char(&mut self)
        ensures
            final(self).filter@ == if old(self).filter@.len() > 0 {
                old(self).filter@.drop_last()
            } else {
                old(self).filter@
            },
            final(self).title == old(self).title,
            final(self).help == old(self).help,
            final(self).items == old(self).items,
            final(self).action == old(self).action,
            final(self).selected == first_or(final(self).matches(), old(self).selected),
    {
        let mut chars = chars_of(self.filter.as_str());
        if chars.len() > 0 {
            chars.pop();
        }
        self.filter = string_of(&chars);
        self.select_first_match();
    }

    /// The selected item, when it is among the matches.
    pub fn selected_item(&self) -> (r: Option<&PickerItem>)
        ensures
            r is Some <==> self.matches().contains(self.selected),
            r matches Some(item) ==> *item == self.items@[self.selected as int],
    {
        let m = self.matching_indices();
        proof {
            assert(self.items@.len() == self.items.len());
            lemma_matches_are_distinct_items(
                self.items@,
                self.filter@,
                self.action == PickerAction::InsertFilePath,
            );
        }
        let mut j: usize = 0;
        while j < m.len()
            invariant
                j <= m@.len(),
                m@ == self.matches(),
                forall|k: int| 0 <= k < m@.len() ==> #[trigger] m@[k] < self.items@.len(),
                forall|k: int| 0 <= k < j ==> m@[k] != self.selected,
            decreases m@.len() - j,
        {
            if m[j] == self.selected {
                return Some(&self.items[self.selected]);
            }
            j += 1;
        }
        None
    }

    /// Replaces the filter with the selected item's value, escaped so that
    /// it matches literally.
    pub fn complete_filter(&mut self)
        ensures
            final(self).filter@ == if old(self).matches().contains(old(self).selected) {
                regex_escaped(old(self).items@[old(self).selected as int].value@)
            } else {
                old(self).filter@
            },
            final(self).title == old(self).title,
            final(self).help == old(self).help,
            final(self).items == old(self).items,
            final(self).action == old(self).action,
            final(self).selected == old(self).selected,
    {
        let escaped = match self.selected_item() {
            Some(item) => Some(regex_escape(item.value.as_str())),
            None => None,
        };
        if let Some(f) = escaped {
            self.filter = f;
        }
    }
}

/// A picker whose selection is among its matches returns to it after moving
/// up and then down, or down and then up.
pub proof fn lemma_picker_selection_round_trip(p: UiPicker)
    requires
        p.matches().contains(p.selected),
    ensures
        next_selection(p.matches(), previous_selection(p.matches(), p.selected)) == p.selected,
        previous_selection(p.matches(), next_selection(p.matches(), p.selected)) == p.selected,
{
    assert(p.items@.len() == p.items.len());
    lemma_matches_are_distinct_items(p.items@, p.filter@, p.action == PickerAction::InsertFilePath);
    lemma_selection_round_trip(p.matches(), p.selected);
}

// ---------------------------------------------------------------------
// Layout helpers
// ---------------------------------------------------------------------

/// Rows of a default-height terminal (eighteen rows) left for picker items
/// once the input, status and footer rows are taken.
pub const MAX_PICKER_ITEMS: usize = 6;

/// The first match shown, so that the selected match is on screen.
pub open spec fn visible_start(m: Seq<usize>, selected: usize) -> int {
    let p = position_in(m, selected, 0);
    if p + 1 >= MAX_PICKER_ITEMS {
        p + 1 - MAX_PICKER_ITEMS
    } else {
        0
    }
}

/// The index, among the matches, of the first match to show.
pub fn visible_picker_match_start(picker: &UiPicker, matching_indices: &[usize]) -> (start: usize)
    ensures
        start == visible_start(matching_indices@, picker.selected),
{
    let len = matching_indices.len();
    let p = position_of(matching_indices, picker.selected);
    proof {
        lemma_position_in(matching_indices@, picker.selected, 0);
    }
    assert(p < len || p == 0);
    (p + 1).saturating_sub(MAX_PICKER_ITEMS)
}

/// The verb of the footer's Enter hint.
pub open spec fn footer_action(action: PickerAction) -> Seq<char> {
    if action == PickerAction::Config {
        "change"@
    } else if action == PickerAction::Doctor {
        "close"@
    } else {
        "select"@
    }
}

/// The footer line: title, the keys the picker takes, and how to leave.
pub open spec fn footer_text(title: Seq<char>, help: Seq<char>, action: PickerAction) -> Seq<char> {
    "  "@ + title + " · Type to search · Enter to "@ + footer_action(action) + (if has_substring(
        help,
        "ctrl-p"@,
    ) {
        " · Ctrl-P to pin/unpin"@
    } else {
        Seq::empty()
    }) + (if action == PickerAction::InsertFilePath {
        " · Tab to insert"@
    } else if has_substring(help, "tab"@) {
        " · Tab to complete"@
    } else {
        Seq::empty()
    }) + " · Esc to cancel"@
}

/// The footer line of the picker.
pub fn picker_footer_text(picker: &UiPicker) -> (t: String)
    ensures
        t@ == footer_text(picker.title@, picker.help@, picker.action),
{
    let action = match picker.action {
        PickerAction::Config => "change",
        PickerAction::Doctor => "close",
        PickerAction::SelectModel
        | PickerAction::SelectTitleModel
        | PickerAction::LoginProvider
        | PickerAction::LogoutProvider
        | PickerAction::InsertSkillCommand
        | PickerAction::InsertFilePath
        | PickerAction::ResumeSession => "select",
    };
    let mut t = String::new();
    push_str(&mut t, "  ");
    push_str(&mut t, picker.title.as_str());
    push_str(&mut t, " · Type to search · Enter to ");
    push_str(&mut t, action);
    let ghost before_pin = t@;
    if contains_str(picker.help.as_str(), "ctrl-p") {
        push_str(&mut t, " · Ctrl-P to pin/unpin");
    }
    let ghost before_tab = t@;
    if picker.action == PickerAction::InsertFilePath {
        push_str(&mut t, " · Tab to insert");
    } else if contains_str(picker.help.as_str(), "tab") {
        push_str(&mut t, " · Tab to complete");
    }
    let ghost before_esc = t@;
    push_str(&mut t, " · Esc to cancel");
    proof {
        let pin: Seq<char> = if has_substring(picker.help@, "ctrl-p"@) {
            " · Ctrl-P to pin/unpin"@
        } else {
            Seq::empty()
        };
        let tab: Seq<char> = if picker.action == PickerAction::InsertFilePath {
            " · Tab to insert"@
        } else if has_substring(picker.help@, "tab"@) {
            " · Tab to complete"@
        } else {
            Seq::empty()
        };
        assert(before_pin + pin =~= before_tab);
        assert(before_tab + tab =~= before_esc);
        assert(t@ =~= footer_text(picker.title@, picker.help@, picker.action));
    }
    t
}

/// The widest label among `items`, by display width.
pub open spec fn widest_label(items: Seq<PickerItem>) -> Option<nat>
    decreases items.len(),
{
    if items.len() == 0 {
        None
    } else {
        let w = display_w(items.last().label@);
        match widest_label(items.drop_last()) {
            None => Some(w),
            Some(m) => Some(
                if w > m {
                    w
                } else {
                    m
                },
            ),
        }
    }
}

/// The widest a label column may be for this kind of picker.
pub open spec fn label_cap(action: PickerAction, width: nat) -> nat {
    if action == PickerAction::SelectModel || action == PickerAction::SelectTitleModel {
        60
    } else if action == PickerAction::ResumeSession {
        36
    } else if action == PickerAction::InsertFilePath {
        if width >= 3 {
            (width - 2) as nat
        } else {
            1
        }
    } else {
        30
    }
}

/// Room for labels: all but eighteen columns (kept for previews) when that
/// leaves at least twelve, else all but the two marker columns (at least
/// one).
pub open spec fn label_room(width: nat) -> nat {
    if width >= 30 {
        (width - 18) as nat
    } else if width >= 3 {
        (width - 2) as nat
    } else {
        1
    }
}

/// Width of the label column: the widest label, held between twelve
/// columns (or the cap, if smaller) and the cap set by the picker kind and
/// the room available.
pub open spec fn label_column_width(items: Seq<PickerItem>, action: PickerAction, width: nat) -> nat {
    let cap = if label_cap(action, width) < label_room(width) {
        label_cap(action, width)
    } else {
        label_room(width)
    };
    let floor: nat = if 12 < cap {
        12
    } else {
        cap
    };
    match widest_label(items) {
        None => floor,
        Some(w) => if w < floor {
            floor
        } else if w > cap {
            cap
        } else {
            w
        },
    }
}

/// The width of the picker's label column.
pub fn picker_label_width(picker: &UiPicker, width: usize) -> (w: usize)
    requires
        forall|i: int| 0 <= i < picker.items@.len() ==> text_fits(#[trigger] picker.items@[i].label@),
    ensures
        w == label_column_width(picker.items@, picker.action, width as nat),
{
    let max_label_width: usize = match picker.action {
        PickerAction::SelectModel | PickerAction::SelectTitleModel => 60,
        PickerAction::ResumeSession => 36,
        PickerAction::InsertFilePath => {
            let w = width.saturating_sub(2);
            if w > 1 {
                w
            } else {
                1
            }
        },
        PickerAction::Config
        | PickerAction::Doctor
        | PickerAction::LoginProvider
        | PickerAction::LogoutProvider
        | PickerAction::InsertSkillCommand => 30,
    };
    let reserved_preview_width = width.saturating_sub(18);
    let available_width = if reserved_preview_width >= 12 {
        reserved_preview_width
    } else {
        let w = width.saturating_sub(2);
        if w > 1 {
            w
        } else {
            1
        }
    };
    let max_label_width = if max_label_width < available_width {
        max_label_width
    } else {
        available_width
    };
    let min_label_width: usize = if 12 < max_label_width {
        12
    } else {
        max_label_width
    };
    let mut widest: Option<usize> = None;
    let n = picker.items.len();
    let mut i: usize = 0;
    while i < n
        invariant
            n == picker.items@.len(),
            i <= n,
            forall|k: int| 0 <= k < picker.items@.len() ==> text_fits(#[trigger] picker.items@[k].label@),
            match widest {
                Some(x) => widest_label(picker.items@.take(i as int)) == Some(x as nat),
                None => widest_label(picker.items@.take(i as int)) is None,
            },
        decreases n - i,
    {
        let lw = display_width(picker.items[i].label.as_str());
        assert(picker.items@.take(i as int + 1).drop_last() =~= picker.items@.take(i as int));
        widest = match widest {
            None => Some(lw),
            Some(m) => Some(
                if lw > m {
                    lw
                } else {
                    m
                },
            ),
        };
        i += 1;
    }
    assert(picker.items@.take(n as int) =~= picker.items@);
    match widest {
        None => min_label_width,
        Some(x) => if x < min_label_width {
            min_label_width
        } else if x > max_label_width {
            max_label_width
        } else {
            x
        },
    }
}

/// The picker of login providers: one row per target, labelled with the
/// provider and detailed with its description.
pub fn provider_picker_for_targets(verb: &str, action: PickerAction, targets: Vec<LoginTarget>) -> (p: UiPicker)
    ensures
        p.title@ == "select provider to "@ + verb@,
        p.help@ == "type regex filter, tab complete, up/down select, enter confirm, esc cancel"@,
        p.items@.len() == targets@.len(),
        forall|i: int|
            0 <= i < targets@.len() ==> {
                let item = #[trigger] p.items@[i];
                &&& item.label@ == targets@[i].provider@
                &&& item.detail matches Some(d) && d@ == targets@[i].label@
                &&& item.preview is None
                &&& item.badge is None
                &&& item.value@ == targets@[i].provider@
            },
        p.selected == 0,
        p.filter@ == Seq::<char>::empty(),
        p.action == action,
{
    let mut items: Vec<PickerItem> = Vec::new();
    let n = targets.len();
    let mut i: usize = 0;
    while i < n
        invariant
            n == targets@.len(),
            i <= n,
            items@.len() == i,
            forall|k: int|
                0 <= k < i ==> {
                    let item = #[trigger] items@[k];
                    &&& item.label@ == targets@[k].provider@
                    &&& item.detail matches Some(d) && d@ == targets@[k].label@
                    &&& item.preview is None
                    &&& item.badge is None
                    &&& item.value@ == targets@[k].provider@
                },
        decreases n - i,
    {
        let target = &targets[i];
        items.push(
            PickerItem {
                label: target.provider.clone(),
                detail: Some(target.label.clone()),
                preview: None,
                badge: None,
                value: target.provider.clone(),
            },
        );
        i += 1;
    }
    let mut title = String::new();
    push_str(&mut title, "select provider to ");
    push_str(&mut title, verb);
    UiPicker::new(
        title.as_str(),
        "type regex filter, tab complete, up/down select, enter confirm, esc cancel",
        items,
        action,
    )
}

/// The index of the first failed credential check, if any.
pub open spec fn first_failure<E>(stored: Seq<Result<bool, E>>) -> Option<int>
    decreases stored.len(),
{
    if stored.len() == 0 {
        None
    } else {
        match first_failure(stored.drop_last()) {
            Some(i) => Some(i),
            None => if stored.last() is Err {
                Some(stored.len() - 1)
            } else {
                None
            },
        }
    }
}

/// The targets whose credential check found stored credentials.
pub open spec fn stored_targets<E>(targets: Seq<LoginTarget>, stored: Seq<Result<bool, E>>) -> Seq<LoginTarget>
    decreases targets.len(),
{
    if targets.len() == 0 || stored.len() == 0 {
        Seq::empty()
    } else {
        let prev = stored_targets(targets.drop_last(), stored.drop_last());
        if stored.last() == Ok::<bool, E>(true) {
            prev.push(targets.last())
        } else {
            prev
        }
    }
}

/// The picker for logging out: the login targets whose credentials are
/// stored, given for each target whether its credentials are stored; the
/// first failure to read the credential store is handed back instead.
pub fn logout_provider_picker<E>(targets: Vec<LoginTarget>, stored: Vec<Result<bool, E>>) -> (r: Result<UiPicker, E>)
    requires
        targets@.len() == stored@.len(),
    ensures
        match r {
            Err(e) => first_failure(stored@) is Some && stored@[first_failure(stored@)->0] == Err::<bool, E>(e),
            Ok(p) => {
                let kept = stored_targets(targets@, stored@);
                &&& first_failure(stored@) is None
                &&& p.title@ == "select provider to logout"@
                &&& p.action == PickerAction::LogoutProvider
                &&& p.items@.len() == kept.len()
                &&& forall|i: int|
                    0 <= i < kept.len() ==> ((#[trigger] p.items@[i]).value@ == kept[i].provider@
                        && p.items@[i].label@ == kept[i].provider@ && (p.items@[i].detail matches Some(d)
                        && d@ == kept[i].label@))
            },
        },
{
    let ghost ts = targets@;
    let ghost ss = stored@;
    let mut rest_targets = targets;
    let mut rest_stored = stored;
    let mut kept: Vec<LoginTarget> = Vec::new();
    let n = rest_stored.len();
    let mut i: usize = 0;
    while i < n
        invariant
            n == ts.len(),
            n == ss.len(),
            i <= n,
            rest_targets@ == ts.skip(i as int),
            rest_stored@ == ss.skip(i as int),
            ss == stored@,
            ts == targets@,
            first_failure(ss.take(i as int)) is None,
            kept@ == stored_targets(ts.take(i as int), ss.take(i as int)),
        decreases n - i,
    {
        let t = rest_targets.remove(0);
        let s = rest_stored.remove(0);
        proof {
            assert(ts.take(i as int + 1).drop_last() =~= ts.take(i as int));
            assert(ss.take(i as int + 1).drop_last() =~= ss.take(i as int));
            assert(ts.skip(i as int)[0] == ts[i as int]);
            assert(ss.skip(i as int)[0] == ss[i as int]);
            assert(rest_targets@ =~= ts.skip(i as int + 1));
            assert(rest_stored@ =~= ss.skip(i as int + 1));
            assert(s == ss[i as int]);
            assert(t == ts[i as int]);
        }
        match s {
            Err(e) => {
                proof {
                    assert(ss.take(i as int + 1).last() == ss[i as int]);
                    assert(first_failure(ss.take(i as int + 1)) == Some(i as int));
                    lemma_first_failure_prefix(ss, i as int + 1);
                    assert(first_failure(ss) == Some(i as int));
                    assert(ss[i as int] == Err::<bool, E>(e));
                }
                return Err(e);
            },
            Ok(found) => {
                if found {
                    kept.push(t);
                }
            },
        }
        i += 1;
    }
    assert(ts.take(n as int) =~= ts);
    assert(ss.take(n as int) =~= ss);
    let p = provider_picker_for_targets("logout", PickerAction::LogoutProvider, kept);
    proof {
        reveal_strlit("select provider to ");
        reveal_strlit("logout");
        reveal_strlit("select provider to logout");
        assert(p.title@ =~= "select provider to logout"@);
    }
    Ok(p)
}

/// A failure among the first checks stays the first failure of all.
proof fn lemma_first_failure_prefix<E>(ss: Seq<Result<bool, E>>, k: int)
    requires
        0 <= k <= ss.len(),
        first_failure(ss.take(k)) is Some,
    ensures
        first_failure(ss) == first_failure(ss.take(k)),
    decreases ss.len() - k,
{
    if k < ss.len() {
        assert(ss.take(k + 1).drop_last() =~= ss.take(k));
        lemma_first_failure_prefix(ss, k + 1);
    } else {
        assert(ss.take(k) =~= ss);
    }
}

} // verus!
