//! Questionnaires the agent asks: the state of each answer field, how the
//! answers are normalised, and the text shown around them.
use vstd::prelude::*;
use crate::text::{decimal, decimal_string, str_eq, trim, trim_seq};
use crate::text::{ascii_lower_seq, ascii_lowercase_chars, chars_of, eq_ignore_ascii_case, push_str, string_of};
use crate::composer::{byte_index_of, byte_offset, bytes_fit, insert_at_cursor, remove_at};
use crate::text::{spliced};
use crate::composer::edit_at;
use crate::width::strings_view;
use crate::wrap::{extend_strings, wrapped_rows, wrapped_text_rows};

verus! {

/// A JSON value as a question's default holds it. Numbers, objects and
/// arrays carry their JSON text as well, since that is how they are shown
/// when taken as a single string.
#[derive(Debug)]
pub enum JsonValue {
    Null,
    Bool(bool),
    Number(String),
    Text(String),
    Array { items: Vec<JsonValue>, json: String },
    Object(String),
}

/// The value as one string: text as it is, `true`/`false`, a number's or
/// an object's or an array's JSON text, nothing for null.
pub open spec fn json_string(v: JsonValue) -> Seq<char> {
    match v {
        JsonValue::Null => Seq::empty(),
        JsonValue::Bool(b) => if b {
            "true"@
        } else {
            "false"@
        },
        JsonValue::Number(t) => t@,
        JsonValue::Text(t) => t@,
        JsonValue::Array { json, .. } => json@,
        JsonValue::Object(t) => t@,
    }
}

/// `parts` joined with `sep` between them.
pub open spec fn join_seqs(parts: Seq<Seq<char>>, sep: Seq<char>) -> Seq<char>
    decreases parts.len(),
{
    if parts.len() == 0 {
        Seq::empty()
    } else if parts.len() == 1 {
        parts[0]
    } else {
        join_seqs(parts.drop_last(), sep) + sep + parts.last()
    }
}

/// How a value is shown: arrays as their elements' displays joined by
/// ", ", anything else as its single string.
pub open spec fn json_display(v: JsonValue) -> Seq<char>
    decreases v, 0int,
{
    match v {
        JsonValue::Array { items, .. } => join_seqs(display_list(items@, items@.len() as int), ", "@),
        _ => json_string(v),
    }
}

/// The displays of the first `n` values of `s`.
pub open spec fn display_list(s: Seq<JsonValue>, n: int) -> Seq<Seq<char>>
    decreases s, n,
{
    if n <= 0 || n > s.len() {
        Seq::empty()
    } else {
        display_list(s, n - 1).push(json_display(s[n - 1]))
    }
}

/// A value as one string (see `json_string`).
pub fn questionnaire_default_string(v: &JsonValue) -> (s: String)
    ensures
        s@ == json_string(*v),
{
    match v {
        JsonValue::Null => String::new(),
        JsonValue::Bool(b) => if *b {
            String::from_str("true")
        } else {
            String::from_str("false")
        },
        JsonValue::Number(t) => t.clone(),
        JsonValue::Text(t) => t.clone(),
        JsonValue::Array { json, .. } => json.clone(),
        JsonValue::Object(t) => t.clone(),
    }
}

/// Appends `sep` and then `part` to `acc` unless `acc` is still empty of
/// parts.
proof fn lemma_join_push(parts: Seq<Seq<char>>, sep: Seq<char>, p: Seq<char>)
    ensures
        join_seqs(parts.push(p), sep) == if parts.len() == 0 {
            p
        } else {
            join_seqs(parts, sep) + sep + p
        },
{
    assert(parts.push(p).drop_last() =~= parts);
}

/// How a value is shown (see `json_display`).
pub fn questionnaire_default_display(v: &JsonValue) -> (s: String)
    ensures
        s@ == json_display(*v),
    decreases v,
{
    match v {
        JsonValue::Array { items, .. } => {
            let mut out = String::new();
            let n = items.len();
            let mut i: usize = 0;
            while i < n
                invariant
                    *v is Array,
                    (*v)->items == *items,
                    n == items@.len(),
                    i <= n,
                    out@ == join_seqs(display_list(items@, i as int), ", "@),
                decreases n - i,
            {
                let item = &items[i];
                proof {
                    assert(decreases_to!(*v => (*v)->items));
                    assert(decreases_to!((*v)->items => (*v)->items@));
                    assert(decreases_to!((*v)->items@ => (*v)->items@[i as int]));
                    assert(decreases_to!(*v => *item));
                }
                let d = questionnaire_default_display(item);
                proof {
                    lemma_join_push(display_list(items@, i as int), ", "@, d@);
                    assert(display_list(items@, i as int + 1) == display_list(items@, i as int).push(d@));
                }
                if i > 0 {
                    push_str(&mut out, ", ");
                }
                push_str(&mut out, d.as_str());
                i += 1;
            }
            out
        },
        _ => questionnaire_default_string(v),
    }
}

/// The non-empty single strings of the first `n` values of `s`.
pub open spec fn nonempty_strings(s: Seq<JsonValue>, n: int) -> Seq<Seq<char>>
    decreases n,
{
    if n <= 0 || n > s.len() {
        Seq::empty()
    } else {
        let prev = nonempty_strings(s, n - 1);
        if json_string(s[n - 1]).len() > 0 {
            prev.push(json_string(s[n - 1]))
        } else {
            prev
        }
    }
}

/// The strings a default stands for: the non-empty strings of an array's
/// elements, else the value's own string when it is not empty.
pub open spec fn default_strings(v: JsonValue) -> Seq<Seq<char>> {
    match v {
        JsonValue::Array { items, .. } => nonempty_strings(items@, items@.len() as int),
        _ => if json_string(v).len() > 0 {
            seq![json_string(v)]
        } else {
            Seq::empty()
        },
    }
}

/// The strings a default stands for (see `default_strings`).
pub fn questionnaire_default_strings(v: &JsonValue) -> (r: Vec<String>)
    ensures
        strings_view(r@) == default_strings(*v),
{
    match v {
        JsonValue::Array { items, .. } => {
            let mut r: Vec<String> = Vec::new();
            let n = items.len();
            let mut i: usize = 0;
            while i < n
                invariant
                    n == items@.len(),
                    i <= n,
                    strings_view(r@) == nonempty_strings(items@, i as int),
                decreases n - i,
            {
                let s = questionnaire_default_string(&items[i]);
                if chars_of(s.as_str()).len() > 0 {
                    r.push(s);
                }
                assert(strings_view(r@) =~= nonempty_strings(items@, i as int + 1));
                i += 1;
            }
            r
        },
        _ => {
            let s = questionnaire_default_string(v);
            let mut r: Vec<String> = Vec::new();
            if chars_of(s.as_str()).len() > 0 {
                r.push(s);
            }
            assert(strings_view(r@) =~= default_strings(*v));
            r
        },
    }
}

/// `parts` joined with `sep` between them.
pub fn join_strings(parts: &Vec<String>, sep: &str) -> (r: String)
    ensures
        r@ == join_seqs(strings_view(parts@), sep@),
{
    let mut out = String::new();
    let n = parts.len();
    let mut i: usize = 0;
    while i < n
        invariant
            n == parts@.len(),
            i <= n,
            out@ == join_seqs(strings_view(parts@.take(i as int)), sep@),
        decreases n - i,
    {
        proof {
            lemma_join_push(strings_view(parts@.take(i as int)), sep@, parts@[i as int]@);
            assert(strings_view(parts@.take(i as int + 1)) =~= strings_view(parts@.take(i as int)).push(
                parts@[i as int]@,
            ));
        }
        if i > 0 {
            push_str(&mut out, sep);
        }
        push_str(&mut out, parts[i].as_str());
        i += 1;
    }
    assert(parts@.take(n as int) =~= parts@);
    out
}

// ---------------------------------------------------------------------
// Questions and answer fields
// ---------------------------------------------------------------------

/// What kind of answer a question takes.
#[derive(Clone, Copy, Debug, PartialEq, Eq, Structural)]
pub enum QuestionnaireQuestionKind {
    Text,
    Choice,
    MultiSelect,
    Confirm,
}

/// One question of a questionnaire.
#[derive(Debug)]
pub struct QuestionnaireQuestion {
    pub id: String,
    pub question: String,
    pub help: Option<String>,
    pub kind: QuestionnaireQuestionKind,
    pub choices: Vec<String>,
    pub allow_other: bool,
    pub required: bool,
    pub default: Option<JsonValue>,
}

/// What is selected in an answer field.
#[derive(Clone, Debug)]
pub enum FieldSelection {
    /// A free-text answer.
    Text,
    /// Nothing chosen yet.
    Unselected,
    /// One of the choices.
    Single(usize),
    /// Several choices (indices in increasing order), and whether the
    /// free-text "other" answer is ticked.
    Multi { selected: Vec<usize>, other: bool },
    /// The free-text "other" answer.
    Other,
}

/// A selection as a mathematical value.
pub enum SelectionView {
    Text,
    Unselected,
    Single(usize),
    Multi(Seq<usize>, bool),
    Other,
}

impl View for FieldSelection {
    type V = SelectionView;

    open spec fn view(&self) -> SelectionView {
        match self {
            FieldSelection::Text => SelectionView::Text,
            FieldSelection::Unselected => SelectionView::Unselected,
            FieldSelection::Single(i) => SelectionView::Single(*i),
            FieldSelection::Multi { selected, other } => SelectionView::Multi(selected@, *other),
            FieldSelection::Other => SelectionView::Other,
        }
    }
}

/// The editing state of one answer: selection, highlighted choice, and the
/// free text with its cursor (counted in characters).
#[derive(Clone, Debug)]
pub struct QuestionnaireFieldState {
    pub selection: FieldSelection,
    pub choice_cursor: usize,
    pub other_value: String,
    pub other_cursor: usize,
}

/// Whether the choice list of `q` leaves room for the "other" row.
pub open spec fn choices_fit(q: QuestionnaireQuestion) -> bool {
    q.choices@.len() < usize::MAX
}

/// The number of selectable rows: none for text, two for yes/no, else the
/// choices plus the "other" row when allowed.
pub open spec fn count_choices(q: QuestionnaireQuestion) -> int {
    match q.kind {
        QuestionnaireQuestionKind::Text => 0,
        QuestionnaireQuestionKind::Confirm => 2,
        _ => q.choices@.len() + if q.allow_other {
            1int
        } else {
            0int
        },
    }
}

/// The number of selectable rows of `question`.
pub fn choice_count(question: &QuestionnaireQuestion) -> (n: usize)
    requires
        choices_fit(*question),
    ensures
        n == count_choices(*question),
{
    match question.kind {
        QuestionnaireQuestionKind::Text => 0,
        QuestionnaireQuestionKind::Confirm => 2,
        QuestionnaireQuestionKind::Choice | QuestionnaireQuestionKind::MultiSelect => {
            question.choices.len() + if question.allow_other {
                1
            } else {
                0
            }
        },
    }
}

/// Whether a Multi selection keeps its indices strictly increasing (the
/// field's invariant).
pub open spec fn strictly_increasing(s: Seq<usize>) -> bool {
    forall|i: int, j: int| 0 <= i < j < s.len() ==> s[i] < s[j]
}

pub open spec fn selection_wf(sel: SelectionView) -> bool {
    sel matches SelectionView::Multi(s, _) ==> strictly_increasing(s)
}

/// First position of `s` holding a value above `x`, else its length.
pub open spec fn insert_point(s: Seq<usize>, x: usize, p: int) -> int
    decreases s.len() - p,
{
    if p < 0 || p >= s.len() {
        s.len() as int
    } else if s[p] > x {
        p
    } else {
        insert_point(s, x, p + 1)
    }
}

/// `s` with `x` added in order, unless already present.
pub open spec fn insert_sorted(s: Seq<usize>, x: usize) -> Seq<usize> {
    if s.contains(x) {
        s
    } else {
        s.insert(insert_point(s, x, 0), x)
    }
}

/// `s` without any occurrence of `x`.
pub open spec fn without_value(s: Seq<usize>, x: usize) -> Seq<usize>
    decreases s.len(),
{
    if s.len() == 0 {
        s
    } else {
        let p = without_value(s.drop_last(), x);
        if s.last() == x {
            p
        } else {
            p.push(s.last())
        }
    }
}

proof fn lemma_insert_point(s: Seq<usize>, x: usize, p: int)
    requires
        0 <= p <= s.len(),
    ensures
        p <= insert_point(s, x, p) <= s.len(),
        forall|q: int| p <= q < insert_point(s, x, p) ==> s[q] <= x,
        insert_point(s, x, p) < s.len() ==> s[insert_point(s, x, p)] > x,
    decreases s.len() - p,
{
    if p < s.len() && s[p] <= x {
        lemma_insert_point(s, x, p + 1);
    }
}

/// Adding a value in order keeps the indices strictly increasing and adds
/// exactly that value.
pub proof fn lemma_insert_sorted(s: Seq<usize>, x: usize)
    requires
        strictly_increasing(s),
    ensures
        strictly_increasing(insert_sorted(s, x)),
        insert_sorted(s, x).contains(x),
        forall|y: usize|
            #![trigger insert_sorted(s, x).contains(y)]
            #![trigger s.contains(y)]
            insert_sorted(s, x).contains(y) <==> (s.contains(y) || y == x),
{
    if !s.contains(x) {
        lemma_insert_point(s, x, 0);
        let p = insert_point(s, x, 0);
        let r = s.insert(p, x);
        assert(r[p] == x);
        assert forall|i: int, j: int| 0 <= i < j < r.len() implies r[i] < r[j] by {
            if i < p && j < p {
            } else if i < p && j == p {
                assert(s[i] <= x);
                assert(s[i] != x);
            } else if i < p {
                assert(r[j] == s[j - 1]);
            } else if i == p {
                assert(r[j] == s[j - 1]);
                if j - 1 > p {
                    assert(s[p] < s[j - 1]);
                }
            } else {
                assert(r[i] == s[i - 1] && r[j] == s[j - 1]);
            }
        }
        assert forall|y: usize| r.contains(y) <==> (s.contains(y) || y == x) by {
            if r.contains(y) {
                let k = choose|k: int| 0 <= k < r.len() && r[k] == y;
                if k < p {
                    assert(s[k] == y);
                } else if k > p {
                    assert(s[k - 1] == y);
                }
            }
            if s.contains(y) {
                let k = choose|k: int| 0 <= k < s.len() && s[k] == y;
                if k < p {
                    assert(r[k] == y);
                } else {
                    assert(r[k + 1] == y);
                }
            }
            if y == x {
                assert(r[p] == y);
            }
        }
    }
}

proof fn lemma_without_value_members(s: Seq<usize>, x: usize)
    ensures
        forall|y: usize|
            #![trigger without_value(s, x).contains(y)]
            #![trigger s.contains(y)]
            without_value(s, x).contains(y) <==> (s.contains(y) && y != x),
    decreases s.len(),
{
    if s.len() > 0 {
        let t = s.drop_last();
        lemma_without_value_members(t, x);
        let p = without_value(t, x);
        assert forall|y: usize| without_value(s, x).contains(y) <==> (s.contains(y) && y != x) by {
            let r = without_value(s, x);
            if s.contains(y) && y != x {
                let k = choose|k: int| 0 <= k < s.len() && s[k] == y;
                if k < s.len() - 1 {
                    assert(t[k] == y);
                    assert(t.contains(y));
                    let m = choose|m: int| 0 <= m < p.len() && p[m] == y;
                    if s.last() != x {
                        assert(r[m] == y);
                    }
                } else {
                    assert(r[r.len() - 1] == y);
                }
            }
            if r.contains(y) {
                let k = choose|k: int| 0 <= k < r.len() && r[k] == y;
                if k < p.len() {
                    assert(p[k] == y);
                    assert(p.contains(y));
                    let m = choose|m: int| 0 <= m < t.len() && t[m] == y;
                    assert(s[m] == y);
                } else {
                    assert(s[s.len() - 1] == y);
                }
            }
        }
    }
}

/// Removing a value keeps the indices strictly increasing and removes
/// exactly that value.
pub proof fn lemma_without_value(s: Seq<usize>, x: usize)
    requires
        strictly_increasing(s),
    ensures
        strictly_increasing(without_value(s, x)),
        forall|y: usize|
            #![trigger without_value(s, x).contains(y)]
            #![trigger s.contains(y)]
            without_value(s, x).contains(y) <==> (s.contains(y) && y != x),
    decreases s.len(),
{
    lemma_without_value_members(s, x);
    if s.len() > 0 {
        let t = s.drop_last();
        assert(strictly_increasing(t));
        lemma_without_value(t, x);
        let p = without_value(t, x);
        if s.last() != x {
            let r = p.push(s.last());
            assert forall|i: int, j: int| 0 <= i < j < r.len() implies r[i] < r[j] by {
                assert(r[i] == p[i]);
                assert(p.contains(p[i]));
                let m = choose|m: int| 0 <= m < t.len() && t[m] == p[i];
                if j == p.len() {
                    assert(s[m] < s[s.len() - 1]);
                } else {
                    assert(r[j] == p[j]);
                }
            }
        }
    }
}

/// A copy of `v`.
fn copy_indices(v: &Vec<usize>) -> (r: Vec<usize>)
    ensures
        r@ == v@,
{
    let mut r: Vec<usize> = Vec::new();
    let mut i: usize = 0;
    while i < v.len()
        invariant
            i <= v@.len(),
            r@ == v@.take(i as int),
        decreases v@.len() - i,
    {
        r.push(v[i]);
        assert(v@.take(i as int + 1) =~= v@.take(i as int).push(v@[i as int]));
        i += 1;
    }
    assert(v@.take(v@.len() as int) =~= v@);
    r
}

/// `s` with `x` added in order, unless already present.
pub fn insert_sorted_vec(v: &Vec<usize>, x: usize) -> (r: Vec<usize>)
    ensures
        r@ == insert_sorted(v@, x),
{
    let n = v.len();
    let mut r: Vec<usize> = Vec::new();
    let mut i: usize = 0;
    while i < n
        invariant
            n == v@.len(),
            i <= n,
            r@ == v@.take(i as int),
            forall|k: int| 0 <= k < i ==> v@[k] != x,
        decreases n - i,
    {
        if v[i] == x {
            proof {
                assert(v@.contains(x));
            }
            return copy_indices(v);
        }
        r.push(v[i]);
        assert(v@.take(i as int + 1) =~= v@.take(i as int).push(v@[i as int]));
        i += 1;
    }
    assert(v@.take(n as int) =~= v@);
    assert(!v@.contains(x));
    let mut p: usize = 0;
    while p < n && v[p] <= x
        invariant
            n == v@.len(),
            p <= n,
            insert_point(v@, x, 0) == insert_point(v@, x, p as int),
        decreases n - p,
    {
        p += 1;
    }
    r.insert(p, x);
    r
}

/// `v` without any occurrence of `x`.
pub fn without_value_vec(v: &Vec<usize>, x: usize) -> (r: Vec<usize>)
    ensures
        r@ == without_value(v@, x),
{
    let n = v.len();
    let mut r: Vec<usize> = Vec::new();
    let mut i: usize = 0;
    while i < n
        invariant
            n == v@.len(),
            i <= n,
            r@ == without_value(v@.take(i as int), x),
        decreases n - i,
    {
        assert(v@.take(i as int + 1).drop_last() =~= v@.take(i as int));
        if v[i] != x {
            r.push(v[i]);
        }
        i += 1;
    }
    assert(v@.take(n as int) =~= v@);
    r
}

/// `cursor`, held below `count` (zero when there are no rows).
pub open spec fn cap_index(cursor: usize, count: int) -> usize {
    if count <= 0 {
        0
    } else if cursor < count - 1 {
        cursor
    } else {
        (count - 1) as usize
    }
}

/// The single selection for the highlighted row: "other" on the row after
/// the choices when it is allowed, else the highlighted choice (held within
/// the rows).
pub open spec fn single_choice(q: QuestionnaireQuestion, cursor: usize) -> SelectionView {
    if q.allow_other && cursor == q.choices@.len() {
        SelectionView::Other
    } else {
        SelectionView::Single(cap_index(cursor, count_choices(q)))
    }
}

/// The selection after toggling the highlighted row.
pub open spec fn toggled(sel: SelectionView, cursor: usize, q: QuestionnaireQuestion) -> SelectionView {
    match sel {
        SelectionView::Text => SelectionView::Text,
        SelectionView::Unselected | SelectionView::Single(_) => single_choice(q, cursor),
        SelectionView::Multi(s, o) => if q.allow_other && cursor == q.choices@.len() {
            SelectionView::Multi(s, !o)
        } else {
            let c = cap_index(cursor, q.choices@.len() as int);
            if s.contains(c) {
                SelectionView::Multi(without_value(s, c), o)
            } else {
                SelectionView::Multi(insert_sorted(s, c), o)
            }
        },
        SelectionView::Other => if cursor < q.choices@.len() {
            SelectionView::Single(cursor)
        } else {
            SelectionView::Other
        },
    }
}

/// Two strictly increasing index lists with the same members are equal.
proof fn lemma_sorted_same_members(a: Seq<usize>, b: Seq<usize>)
    requires
        strictly_increasing(a),
        strictly_increasing(b),
        forall|y: usize| #[trigger] a.contains(y) <==> b.contains(y),
    ensures
        a == b,
    decreases a.len(),
{
    if a.len() == 0 {
        if b.len() > 0 {
            assert(b.contains(b[0]));
            assert(a.contains(b[0]));
            assert(false);
        }
        assert(a =~= b);
    } else {
        assert(a.contains(a[0]));
        assert(b.contains(a[0]));
        assert(b.contains(b[0]));
        assert(a.contains(b[0]));
        let ka = choose|k: int| 0 <= k < a.len() && a[k] == b[0];
        let kb = choose|k: int| 0 <= k < b.len() && b[k] == a[0];
        if ka > 0 {
            assert(a[0] < b[0]);
            assert(b[0] <= a[0]) by {
                if kb > 0 {
                    assert(b[0] < b[kb]);
                }
            }
        }
        if kb > 0 {
            assert(b[0] < a[0]);
            assert(a[0] < a[ka] || ka == 0);
        }
        assert(a[0] == b[0]);
        let ar = a.drop_first();
        let br = b.drop_first();
        assert forall|y: usize| #[trigger] ar.contains(y) <==> br.contains(y) by {
            if ar.contains(y) {
                let k = choose|k: int| 0 <= k < ar.len() && ar[k] == y;
                assert(a[k + 1] == y);
                assert(a.contains(y));
                let m = choose|m: int| 0 <= m < b.len() && b[m] == y;
                assert(m != 0);
                assert(br[m - 1] == y);
            }
            if br.contains(y) {
                let k = choose|k: int| 0 <= k < br.len() && br[k] == y;
                assert(b[k + 1] == y);
                assert(b.contains(y));
                assert(a.contains(y));
                assert(b[0] < b[k + 1]);
                let m = choose|m: int| 0 <= m < a.len() && a[m] == y;
                assert(m != 0);
                assert(ar[m - 1] == y);
            }
        }
        assert(strictly_increasing(ar));
        assert(strictly_increasing(br));
        lemma_sorted_same_members(ar, br);
        assert(a =~= seq![a[0]] + ar);
        assert(b =~= seq![b[0]] + br);
    }
}

/// Toggling the same row of a multi-select twice gives back the selection
/// it had.
pub proof fn lemma_toggle_twice_restores(s: Seq<usize>, o: bool, cursor: usize, q: QuestionnaireQuestion)
    requires
        strictly_increasing(s),
    ensures
        toggled(toggled(SelectionView::Multi(s, o), cursor, q), cursor, q) == SelectionView::Multi(s, o),
{
    if !(q.allow_other && cursor == q.choices@.len()) {
        let c = cap_index(cursor, q.choices@.len() as int);
        if s.contains(c) {
            let t = without_value(s, c);
            lemma_without_value(s, c);
            assert(!t.contains(c));
            lemma_insert_sorted(t, c);
            lemma_sorted_same_members(insert_sorted(t, c), s);
        } else {
            let t = insert_sorted(s, c);
            lemma_insert_sorted(s, c);
            lemma_without_value(t, c);
            lemma_sorted_same_members(without_value(t, c), s);
        }
    }
}

/// The selection after the highlight moved, for single-answer fields: it
/// follows the highlight; other fields keep theirs.
pub open spec fn highlighted_for_single(sel: SelectionView, cursor: usize, q: QuestionnaireQuestion) -> SelectionView {
    match sel {
        SelectionView::Unselected | SelectionView::Single(_) => single_choice(q, cursor),
        SelectionView::Other => if cursor < q.choices@.len() {
            SelectionView::Single(cursor)
        } else {
            SelectionView::Other
        },
        _ => sel,
    }
}

/// Whether typing goes into the field's free text: always for text and
/// "other" answers, for a multi-select when "other" is ticked and
/// highlighted.
pub open spec fn entry_active(sel: SelectionView, cursor: usize, q: QuestionnaireQuestion) -> bool {
    match sel {
        SelectionView::Text | SelectionView::Other => true,
        SelectionView::Unselected | SelectionView::Single(_) => false,
        SelectionView::Multi(_, o) => o && cursor == q.choices@.len(),
    }
}

/// The selection of a field with nothing chosen.
pub open spec fn empty_selection(kind: QuestionnaireQuestionKind) -> SelectionView {
    match kind {
        QuestionnaireQuestionKind::Text => SelectionView::Text,
        QuestionnaireQuestionKind::MultiSelect => SelectionView::Multi(Seq::empty(), false),
        _ => SelectionView::Unselected,
    }
}

/// Index of the first choice equal to `d` up to ASCII case, from `j` on.
pub open spec fn first_ci_match(choices: Seq<String>, d: Seq<char>, j: int) -> Option<int>
    decreases choices.len() - j,
{
    if j < 0 || j >= choices.len() {
        None
    } else if ascii_lower_seq(choices[j]@) == ascii_lower_seq(d) {
        Some(j)
    } else {
        first_ci_match(choices, d, j + 1)
    }
}

proof fn lemma_first_ci_match(choices: Seq<String>, d: Seq<char>, j: int)
    requires
        0 <= j,
    ensures
        first_ci_match(choices, d, j) matches Some(i) ==> j <= i < choices.len(),
    decreases choices.len() - j,
{
    if j < choices.len() && ascii_lower_seq(choices[j]@) != ascii_lower_seq(d) {
        lemma_first_ci_match(choices, d, j + 1);
    }
}

/// The first choice equal to `d` up to ASCII case.
fn find_choice(choices: &Vec<String>, d: &str) -> (r: Option<usize>)
    ensures
        match r {
            Some(i) => first_ci_match(choices@, d@, 0) == Some(i as int),
            None => first_ci_match(choices@, d@, 0) is None,
        },
{
    let n = choices.len();
    let mut j: usize = 0;
    while j < n
        invariant
            n == choices@.len(),
            j <= n,
            first_ci_match(choices@, d@, 0) == first_ci_match(choices@, d@, j as int),
        decreases n - j,
    {
        if eq_ignore_ascii_case(choices[j].as_str(), d) {
            return Some(j);
        }
        j += 1;
    }
    None
}

/// The initial state of a single-choice field: the choice matching the
/// default (ignoring ASCII case), else "other" holding the default when
/// allowed, else nothing.
pub open spec fn default_choice_view(q: QuestionnaireQuestion) -> (SelectionView, int, Seq<char>) {
    match q.default {
        None => (SelectionView::Unselected, 0, Seq::empty()),
        Some(d) => match first_ci_match(q.choices@, json_string(d), 0) {
            Some(i) => (SelectionView::Single(i as usize), i, Seq::empty()),
            None => if q.allow_other {
                (SelectionView::Other, q.choices@.len() as int, json_string(d))
            } else {
                (SelectionView::Unselected, 0, Seq::empty())
            },
        },
    }
}

/// The initial selection, highlighted row and free text of a single-choice
/// field.
pub fn default_choice_selection(question: &QuestionnaireQuestion) -> (r: (FieldSelection, usize, String))
    ensures
        (r.0@, r.1 as int, r.2@) == default_choice_view(*question),
{
    let d = match &question.default {
        Some(v) => questionnaire_default_string(v),
        None => return (FieldSelection::Unselected, 0, String::new()),
    };
    match find_choice(&question.choices, d.as_str()) {
        Some(index) => {
            proof {
                lemma_first_ci_match(question.choices@, d@, 0);
            }
            (FieldSelection::Single(index), index, String::new())
        },
        None => if question.allow_other {
            (FieldSelection::Other, question.choices.len(), d)
        } else {
            (FieldSelection::Unselected, 0, String::new())
        },
    }
}

/// Scanning the first `n` default strings of a multi-select field: the
/// matched choices (in increasing order, each once) and the strings kept as
/// "other" answers.
pub open spec fn multi_scan(q: QuestionnaireQuestion, values: Seq<Seq<char>>, n: int) -> (Seq<usize>, Seq<Seq<char>>)
    decreases n,
{
    if n <= 0 || n > values.len() {
        (Seq::empty(), Seq::empty())
    } else {
        let (sel, others) = multi_scan(q, values, n - 1);
        match first_ci_match(q.choices@, values[n - 1], 0) {
            Some(i) => (insert_sorted(sel, i as usize), others),
            None => if q.allow_other {
                (sel, others.push(values[n - 1]))
            } else {
                (sel, others)
            },
        }
    }
}

/// The default strings of a question.
pub open spec fn question_default_strings(q: QuestionnaireQuestion) -> Seq<Seq<char>> {
    match q.default {
        Some(d) => default_strings(d),
        None => Seq::empty(),
    }
}

/// The initial state of a multi-select field: the choices matching the
/// defaults ticked, unmatched defaults joined as the "other" text (when
/// allowed), and the highlight on the first ticked row.
pub open spec fn default_multi_view(q: QuestionnaireQuestion) -> (SelectionView, int, Seq<char>) {
    let values = question_default_strings(q);
    let (sel, others) = multi_scan(q, values, values.len() as int);
    let other = others.len() > 0;
    let cursor = if sel.len() > 0 {
        sel[0] as int
    } else if other {
        q.choices@.len() as int
    } else {
        0
    };
    (SelectionView::Multi(sel, other), cursor, join_seqs(others, ", "@))
}

/// The initial selection, highlighted row and free text of a multi-select
/// field.
pub fn default_multi_selection(question: &QuestionnaireQuestion) -> (r: (FieldSelection, usize, String))
    ensures
        (r.0@, r.1 as int, r.2@) == default_multi_view(*question),
        selection_wf(r.0@),
{
    let values: Vec<String> = match &question.default {
        Some(v) => questionnaire_default_strings(v),
        None => Vec::new(),
    };
    let ghost vals = question_default_strings(*question);
    assert(strings_view(values@) == vals);
    let mut selected: Vec<usize> = Vec::new();
    let mut others: Vec<String> = Vec::new();
    let n = values.len();
    let mut i: usize = 0;
    while i < n
        invariant
            n == values@.len(),
            i <= n,
            strings_view(values@) == vals,
            vals == question_default_strings(*question),
            (selected@, strings_view(others@)) == multi_scan(*question, vals, i as int),
            strictly_increasing(selected@),
        decreases n - i,
    {
        assert(vals[i as int] == values@[i as int]@);
        match find_choice(&question.choices, values[i].as_str()) {
            Some(index) => {
                proof {
                    lemma_insert_sorted(selected@, index);
                }
                selected = insert_sorted_vec(&selected, index);
            },
            None => {
                if question.allow_other {
                    others.push(values[i].clone());
                    assert(strings_view(others@) =~= multi_scan(*question, vals, i as int).1.push(vals[i as int]));
                }
            },
        }
        i += 1;
    }
    let other = others.len() > 0;
    let cursor = if selected.len() > 0 {
        selected[0]
    } else if other {
        question.choices.len()
    } else {
        0
    };
    let text = join_strings(&others, ", ");
    (FieldSelection::Multi { selected, other }, cursor, text)
}

/// Whether the ASCII-lowercased default reads as yes.
pub open spec fn reads_yes(s: Seq<char>) -> bool {
    s == "yes"@ || s == "y"@ || s == "true"@
}

/// Whether the ASCII-lowercased default reads as no.
pub open spec fn reads_no(s: Seq<char>) -> bool {
    s == "no"@ || s == "n"@ || s == "false"@
}

/// The initial state of a yes/no field: yes (row 0) or no (row 1) when the
/// default reads so in any ASCII case, else nothing.
pub open spec fn default_confirm_view(q: QuestionnaireQuestion) -> (SelectionView, int, Seq<char>) {
    let s = ascii_lower_seq(
        match q.default {
            Some(d) => json_string(d),
            None => Seq::empty(),
        },
    );
    if reads_yes(s) {
        (SelectionView::Single(0), 0, Seq::empty())
    } else if reads_no(s) {
        (SelectionView::Single(1), 1, Seq::empty())
    } else {
        (SelectionView::Unselected, 0, Seq::empty())
    }
}

fn chars_are(v: &Vec<char>, s: &str) -> (b: bool)
    ensures
        b == (v@ == s@),
{
    let t = chars_of(s);
    if v.len() != t.len() {
        return false;
    }
    let mut i: usize = 0;
    while i < v.len()
        invariant
            t@ == s@,
            v@.len() == t@.len(),
            i <= v@.len(),
            forall|k: int| 0 <= k < i ==> v@[k] == t@[k],
        decreases v@.len() - i,
    {
        if v[i] != t[i] {
            return false;
        }
        i += 1;
    }
    assert(v@ =~= t@);
    true
}

/// The initial selection, highlighted row and free text of a yes/no field.
pub fn default_confirm_selection(question: &QuestionnaireQuestion) -> (r: (FieldSelection, usize, String))
    ensures
        (r.0@, r.1 as int, r.2@) == default_confirm_view(*question),
{
    let d = match &question.default {
        Some(v) => questionnaire_default_string(v),
        None => String::new(),
    };
    let lower = ascii_lowercase_chars(d.as_str());
    if chars_are(&lower, "yes") || chars_are(&lower, "y") || chars_are(&lower, "true") {
        (FieldSelection::Single(0), 0, String::new())
    } else if chars_are(&lower, "no") || chars_are(&lower, "n") || chars_are(&lower, "false") {
        (FieldSelection::Single(1), 1, String::new())
    } else {
        (FieldSelection::Unselected, 0, String::new())
    }
}

/// The initial selection, highlighted row and free text of a field.
pub open spec fn initial_view(q: QuestionnaireQuestion) -> (SelectionView, int, Seq<char>) {
    match q.kind {
        QuestionnaireQuestionKind::Text => (
            SelectionView::Text,
            0,
            match q.default {
                Some(d) => json_string(d),
                None => Seq::empty(),
            },
        ),
        QuestionnaireQuestionKind::Choice => default_choice_view(q),
        QuestionnaireQuestionKind::MultiSelect => default_multi_view(q),
        QuestionnaireQuestionKind::Confirm => default_confirm_view(q),
    }
}

impl QuestionnaireFieldState {
    /// The field's invariant: a multi-selection lists its choices in
    /// increasing order, each once.
    pub open spec fn wf(&self) -> bool {
        selection_wf(self.selection@)
    }

    /// A field with nothing chosen and no text.
    pub fn empty(question: &QuestionnaireQuestion) -> (f: Self)
        ensures
            f.selection@ == empty_selection(question.kind),
            f.choice_cursor == 0,
            f.other_value@ == Seq::<char>::empty(),
            f.other_cursor == 0,
            f.wf(),
    {
        let selection = match question.kind {
            QuestionnaireQuestionKind::Text => FieldSelection::Text,
            QuestionnaireQuestionKind::Choice => FieldSelection::Unselected,
            QuestionnaireQuestionKind::MultiSelect => FieldSelection::Multi {
                selected: Vec::new(),
                other: false,
            },
            QuestionnaireQuestionKind::Confirm => FieldSelection::Unselected,
        };
        QuestionnaireFieldState {
            selection,
            choice_cursor: 0,
            other_value: String::new(),
            other_cursor: 0,
        }
    }

    /// A field set up from the question's default, with the text cursor at
    /// the end of the text.
    pub fn new(question: &QuestionnaireQuestion) -> (f: Self)
        ensures
            (f.selection@, f.choice_cursor as int, f.other_value@) == initial_view(*question),
            f.other_cursor == f.other_value@.len(),
            f.wf(),
    {
        let (selection, choice_cursor, other_value) = match question.kind {
            QuestionnaireQuestionKind::Text => (
                FieldSelection::Text,
                0,
                match &question.default {
                    Some(v) => questionnaire_default_string(v),
                    None => String::new(),
                },
            ),
            QuestionnaireQuestionKind::Choice => default_choice_selection(question),
            QuestionnaireQuestionKind::MultiSelect => default_multi_selection(question),
            QuestionnaireQuestionKind::Confirm => default_confirm_selection(question),
        };
        let other_cursor = chars_of(other_value.as_str()).len();
        QuestionnaireFieldState { selection, choice_cursor, other_value, other_cursor }
    }

    /// The number of characters of the free text.
    pub fn char_len(&self) -> (n: usize)
        ensures
            n == self.other_value@.len(),
    {
        chars_of(self.other_value.as_str()).len()
    }

    /// The byte offset of character `char_index` of the free text (its
    /// length in bytes past the end).
    pub fn byte_index(&self, char_index: usize) -> (b: usize)
        requires
            bytes_fit(self.other_value@),
        ensures
            b == byte_offset(self.other_value@, char_index as int),
    {
        byte_index_of(self.other_value.as_str(), char_index)
    }

    /// Types `ch` at the text cursor.
    pub fn insert_char(&mut self, ch: char)
        requires
            old(self).other_cursor < usize::MAX,
        ensures
            final(self).other_value@ == spliced(
                old(self).other_value@,
                edit_at(old(self).other_value@, old(self).other_cursor as int),
                0,
                seq![ch],
            ),
            final(self).other_cursor == old(self).other_cursor + 1,
            final(self).selection == old(self).selection,
            final(self).choice_cursor == old(self).choice_cursor,
    {
        let ins = vec![ch];
        assert(ins@ =~= seq![ch]);
        self.other_value = insert_at_cursor(&self.other_value, self.other_cursor, &ins);
        self.other_cursor = self.other_cursor + 1;
    }

    /// Pastes `text` at the text cursor.
    pub fn insert_text(&mut self, text: &str)
        requires
            old(self).other_cursor + text@.len() <= usize::MAX,
        ensures
            final(self).other_value@ == spliced(
                old(self).other_value@,
                edit_at(old(self).other_value@, old(self).other_cursor as int),
                0,
                text@,
            ),
            final(self).other_cursor == old(self).other_cursor + text@.len(),
            final(self).selection == old(self).selection,
            final(self).choice_cursor == old(self).choice_cursor,
    {
        let ins = chars_of(text);
        self.other_value = insert_at_cursor(&self.other_value, self.other_cursor, &ins);
        self.other_cursor = self.other_cursor + ins.len();
    }

    /// Deletes the character before the text cursor.
    pub fn backspace(&mut self)
        ensures
            old(self).other_cursor == 0 ==> *final(self) == *old(self),
            old(self).other_cursor > 0 ==> final(self).other_cursor == old(self).other_cursor - 1,
            old(self).other_cursor > 0 && old(self).other_cursor <= old(self).other_value@.len()
                ==> final(self).other_value@ == spliced(
                old(self).other_value@,
                old(self).other_cursor - 1,
                1,
                Seq::empty(),
            ),
            old(self).other_cursor > old(self).other_value@.len() ==> final(self).other_value@
                == old(self).other_value@,
            final(self).selection == old(self).selection,
            final(self).choice_cursor == old(self).choice_cursor,
    {
        if self.other_cursor == 0 {
            return;
        }
        self.other_value = remove_at(&self.other_value, self.other_cursor - 1);
        self.other_cursor = self.other_cursor - 1;
    }

    /// Deletes the character at the text cursor.
    pub fn delete(&mut self)
        ensures
            old(self).other_cursor >= old(self).other_value@.len() ==> *final(self) == *old(self),
            old(self).other_cursor < old(self).other_value@.len() ==> final(self).other_value@
                == spliced(old(self).other_value@, old(self).other_cursor as int, 1, Seq::empty()),
            final(self).other_cursor == old(self).other_cursor,
            final(self).selection == old(self).selection,
            final(self).choice_cursor == old(self).choice_cursor,
    {
        if self.other_cursor >= self.char_len() {
            return;
        }
        self.other_value = remove_at(&self.other_value, self.other_cursor);
    }

    /// Whether typing goes into this field's free text.
    pub fn text_entry_active(&self, question: &QuestionnaireQuestion) -> (b: bool)
        ensures
            b == entry_active(self.selection@, self.choice_cursor, *question),
    {
        match &self.selection {
            FieldSelection::Text | FieldSelection::Other => true,
            FieldSelection::Unselected | FieldSelection::Single(_) => false,
            FieldSelection::Multi { other, .. } => *other && self.choice_cursor
                == question.choices.len(),
        }
    }

    /// Makes a single-answer selection follow the highlighted row.
    pub fn select_highlighted_for_single(&mut self, question: &QuestionnaireQuestion)
        requires
            choices_fit(*question),
        ensures
            final(self).selection@ == highlighted_for_single(
                old(self).selection@,
                old(self).choice_cursor,
                *question,
            ),
            final(self).choice_cursor == old(self).choice_cursor,
            final(self).other_value == old(self).other_value,
            final(self).other_cursor == old(self).other_cursor,
            old(self).wf() ==> final(self).wf(),
    {
        let single = match &self.selection {
            FieldSelection::Unselected | FieldSelection::Single(_) => true,
            _ => false,
        };
        if single {
            if question.allow_other && self.choice_cursor == question.choices.len() {
                self.selection = FieldSelection::Other;
            } else {
                let count = choice_count(question);
                let last = count.saturating_sub(1);
                self.selection = FieldSelection::Single(
                    if self.choice_cursor < last {
                        self.choice_cursor
                    } else {
                        last
                    },
                );
            }
        } else if let FieldSelection::Other = self.selection {
            if self.choice_cursor < question.choices.len() {
                self.selection = FieldSelection::Single(self.choice_cursor);
            }
        }
    }

    /// Moves the highlight up one row (text fields have none).
    pub fn move_choice_previous(&mut self, question: &QuestionnaireQuestion)
        requires
            choices_fit(*question),
        ensures
            (count_choices(*question) == 0 || old(self).selection@ is Text) ==> *final(self) == *old(
                self,
            ),
            !(count_choices(*question) == 0 || old(self).selection@ is Text) ==> {
                let cursor = if old(self).choice_cursor > 0 {
                    (old(self).choice_cursor - 1) as usize
                } else {
                    0usize
                };
                &&& final(self).choice_cursor == cursor
                &&& final(self).selection@ == highlighted_for_single(old(self).selection@, cursor, *question)
            },
            final(self).other_value == old(self).other_value,
            final(self).other_cursor == old(self).other_cursor,
            old(self).wf() ==> final(self).wf(),
    {
        let count = choice_count(question);
        if count == 0 {
            return;
        }
        if let FieldSelection::Text = self.selection {
            return;
        }
        self.choice_cursor = self.choice_cursor.saturating_sub(1);
        self.select_highlighted_for_single(question);
    }

    /// Moves the highlight down one row, stopping at the last (text fields
    /// have none).
    pub fn move_choice_next(&mut self, question: &QuestionnaireQuestion)
        requires
            choices_fit(*question),
            old(self).choice_cursor < usize::MAX,
        ensures
            (count_choices(*question) == 0 || old(self).selection@ is Text) ==> *final(self) == *old(
                self,
            ),
            !(count_choices(*question) == 0 || old(self).selection@ is Text) ==> {
                let cursor = if old(self).choice_cursor + 1 < count_choices(*question) - 1 {
                    (old(self).choice_cursor + 1) as usize
                } else {
                    (count_choices(*question) - 1) as usize
                };
                &&& final(self).choice_cursor == cursor
                &&& final(self).selection@ == highlighted_for_single(old(self).selection@, cursor, *question)
            },
            final(self).other_value == old(self).other_value,
            final(self).other_cursor == old(self).other_cursor,
            old(self).wf() ==> final(self).wf(),
    {
        let count = choice_count(question);
        if count == 0 {
            return;
        }
        if let FieldSelection::Text = self.selection {
            return;
        }
        let next = self.choice_cursor + 1;
        let last = count - 1;
        self.choice_cursor = if next < last {
            next
        } else {
            last
        };
        self.select_highlighted_for_single(question);
    }

    /// Toggles the highlighted row: picks it in a single-answer field, ticks
    /// or unticks it in a multi-select.
    pub fn toggle_highlighted(&mut self, question: &QuestionnaireQuestion)
        requires
            choices_fit(*question),
            old(self).wf(),
        ensures
            final(self).selection@ == toggled(old(self).selection@, old(self).choice_cursor, *question),
            final(self).choice_cursor == old(self).choice_cursor,
            final(self).other_value == old(self).other_value,
            final(self).other_cursor == old(self).other_cursor,
            final(self).wf(),
    {
        let new_selection = match &self.selection {
            FieldSelection::Text => None,
            FieldSelection::Unselected | FieldSelection::Single(_) => {
                if question.allow_other && self.choice_cursor == question.choices.len() {
                    Some(FieldSelection::Other)
                } else {
                    let count = choice_count(question);
                    let last = count.saturating_sub(1);
                    Some(
                        FieldSelection::Single(
                            if self.choice_cursor < last {
                                self.choice_cursor
                            } else {
                                last
                            },
                        ),
                    )
                }
            },
            FieldSelection::Multi { selected, other } => {
                if question.allow_other && self.choice_cursor == question.choices.len() {
                    Some(FieldSelection::Multi { selected: copy_indices(selected), other: !*other })
                } else {
                    let last = question.choices.len().saturating_sub(1);
                    let cursor = if self.choice_cursor < last {
                        self.choice_cursor
                    } else {
                        last
                    };
                    let mut present = false;
                    let mut k: usize = 0;
                    while k < selected.len()
                        invariant
                            k <= selected@.len(),
                            present <==> exists|j: int| 0 <= j < k && selected@[j] == cursor,
                        decreases selected@.len() - k,
                    {
                        if selected[k] == cursor {
                            present = true;
                        }
                        k += 1;
                    }
                    assert(present == selected@.contains(cursor));
                    proof {
                        lemma_insert_sorted(selected@, cursor);
                        lemma_without_value(selected@, cursor);
                    }
                    if present {
                        Some(
                            FieldSelection::Multi {
                                selected: without_value_vec(selected, cursor),
                                other: *other,
                            },
                        )
                    } else {
                        Some(
                            FieldSelection::Multi {
                                selected: insert_sorted_vec(selected, cursor),
                                other: *other,
                            },
                        )
                    }
                }
            },
            FieldSelection::Other => {
                if self.choice_cursor < question.choices.len() {
                    Some(FieldSelection::Single(self.choice_cursor))
                } else {
                    None
                }
            },
        };
        if let Some(selection) = new_selection {
            self.selection = selection;
        }
    }
}

// ---------------------------------------------------------------------
// Text around the questions
// ---------------------------------------------------------------------

/// The hint for the kind of answer.
pub open spec fn kind_hint(kind: QuestionnaireQuestionKind) -> Seq<char> {
    match kind {
        QuestionnaireQuestionKind::Text => "free text only when needed"@,
        QuestionnaireQuestionKind::Choice => "select one"@,
        QuestionnaireQuestionKind::MultiSelect => "select one or more"@,
        QuestionnaireQuestionKind::Confirm => "select yes or no"@,
    }
}

/// The parts of a question's answer hint: the kind of answer, whether an
/// "other" answer is offered, and the default.
pub open spec fn hint_parts(q: QuestionnaireQuestion) -> Seq<Seq<char>> {
    let a = seq![kind_hint(q.kind)];
    let b = if q.choices@.len() > 0 && q.allow_other {
        a.push("other available"@)
    } else {
        a
    };
    match q.default {
        Some(d) => b.push("default: "@ + json_display(d)),
        None => b,
    }
}

/// The answer hint of a question: its parts joined by " · ".
pub fn questionnaire_answer_hint(question: &QuestionnaireQuestion) -> (h: String)
    ensures
        h@ == join_seqs(hint_parts(*question), " · "@),
{
    let mut hints: Vec<String> = Vec::new();
    let first = match question.kind {
        QuestionnaireQuestionKind::Text => "free text only when needed",
        QuestionnaireQuestionKind::Choice => "select one",
        QuestionnaireQuestionKind::MultiSelect => "select one or more",
        QuestionnaireQuestionKind::Confirm => "select yes or no",
    };
    hints.push(String::from_str(first));
    if question.choices.len() > 0 && question.allow_other {
        hints.push(String::from_str("other available"));
    }
    if let Some(default) = &question.default {
        let mut d = String::new();
        push_str(&mut d, "default: ");
        let shown = questionnaire_default_display(default);
        push_str(&mut d, shown.as_str());
        hints.push(d);
    }
    assert(strings_view(hints@) =~= hint_parts(*question));
    join_strings(&hints, " · ")
}

/// The marker before a choice row: a ticked or empty box in a
/// multi-select, a filled or empty radio button otherwise.
pub open spec fn selection_marker(q: QuestionnaireQuestion, sel: SelectionView, index: usize) -> Seq<char> {
    match sel {
        SelectionView::Multi(s, o) => if q.kind == QuestionnaireQuestionKind::MultiSelect {
            if index < q.choices@.len() {
                if s.contains(index) {
                    "[x]"@
                } else {
                    "[ ]"@
                }
            } else if o {
                "[x]"@
            } else {
                "[ ]"@
            }
        } else {
            "( )"@
        },
        SelectionView::Single(i) => if i == index {
            "(x)"@
        } else {
            "( )"@
        },
        SelectionView::Other => if q.allow_other && index == q.choices@.len() {
            "(x)"@
        } else {
            "( )"@
        },
        _ => "( )"@,
    }
}

/// The marker before choice row `choice_index`.
pub fn questionnaire_selection_marker(
    question: &QuestionnaireQuestion,
    field: &QuestionnaireFieldState,
    choice_index: usize,
) -> (m: &'static str)
    ensures
        m@ == selection_marker(*question, field.selection@, choice_index),
{
    match &field.selection {
        FieldSelection::Multi { selected, other } => {
            if question.kind == QuestionnaireQuestionKind::MultiSelect {
                if choice_index < question.choices.len() {
                    let mut found = false;
                    let mut k: usize = 0;
                    while k < selected.len()
                        invariant
                            k <= selected@.len(),
                            found <==> exists|j: int| 0 <= j < k && selected@[j] == choice_index,
                        decreases selected@.len() - k,
                    {
                        if selected[k] == choice_index {
                            found = true;
                        }
                        k += 1;
                    }
                    if found {
                        "[x]"
                    } else {
                        "[ ]"
                    }
                } else if *other {
                    "[x]"
                } else {
                    "[ ]"
                }
            } else {
                "( )"
            }
        },
        FieldSelection::Single(index) => if *index == choice_index {
            "(x)"
        } else {
            "( )"
        },
        FieldSelection::Other => if question.allow_other && choice_index == question.choices.len() {
            "(x)"
        } else {
            "( )"
        },
        FieldSelection::Unselected | FieldSelection::Text => "( )",
    }
}

/// The label of choice row `index`: yes/no for a yes/no question, the
/// choice or "Other" past the choices, nothing for a text question.
pub open spec fn choice_label(q: QuestionnaireQuestion, index: usize) -> Seq<char> {
    match q.kind {
        QuestionnaireQuestionKind::Confirm => if index == 0 {
            "yes"@
        } else {
            "no"@
        },
        QuestionnaireQuestionKind::Text => Seq::empty(),
        _ => if index < q.choices@.len() {
            q.choices@[index as int]@
        } else {
            "Other"@
        },
    }
}

/// The label of choice row `choice_index`.
pub fn questionnaire_choice_label(question: &QuestionnaireQuestion, choice_index: usize) -> (l: String)
    ensures
        l@ == choice_label(*question, choice_index),
{
    match question.kind {
        QuestionnaireQuestionKind::Confirm => if choice_index == 0 {
            String::from_str("yes")
        } else {
            String::from_str("no")
        },
        QuestionnaireQuestionKind::Choice | QuestionnaireQuestionKind::MultiSelect => {
            if choice_index < question.choices.len() {
                question.choices[choice_index].clone()
            } else {
                String::from_str("Other")
            }
        },
        QuestionnaireQuestionKind::Text => String::new(),
    }
}

/// Whether the free-text "other" answer is chosen.
pub open spec fn other_selected(sel: SelectionView) -> bool {
    match sel {
        SelectionView::Other => true,
        SelectionView::Multi(_, o) => o,
        _ => false,
    }
}

/// Whether the field's free-text "other" answer is chosen.
pub fn questionnaire_other_selected(field: &QuestionnaireFieldState) -> (b: bool)
    ensures
        b == other_selected(field.selection@),
{
    match &field.selection {
        FieldSelection::Other => true,
        FieldSelection::Multi { other, .. } => *other,
        FieldSelection::Text | FieldSelection::Unselected | FieldSelection::Single(_) => false,
    }
}

/// The number of rows `text` takes when wrapped at `width` columns.
pub fn wrapped_line_count(text: String, width: usize) -> (n: usize)
    ensures
        n == wrapped_rows(text@, width as nat).len(),
{
    wrapped_text_rows(text.as_str(), width).len()
}

/// The header texts of a question: the question line, its help and its
/// answer hint (when not empty).
pub open spec fn prefix_texts(q: QuestionnaireQuestion) -> Seq<Seq<char>> {
    let title = "> 1. "@ + q.question@ + if q.required {
        Seq::<char>::empty()
    } else {
        " optional"@
    };
    let a = seq![title];
    let b = match q.help {
        Some(h) => a.push("  help: "@ + h@),
        None => a,
    };
    let hint = join_seqs(hint_parts(q), " · "@);
    if hint.len() > 0 {
        b.push("  "@ + hint)
    } else {
        b
    }
}

/// The rows of all of `texts`, each wrapped at `width` columns.
pub open spec fn rows_of_all(texts: Seq<Seq<char>>, width: nat) -> Seq<Seq<char>>
    decreases texts.len(),
{
    if texts.len() == 0 {
        Seq::empty()
    } else {
        rows_of_all(texts.drop_last(), width) + wrapped_rows(texts.last(), width)
    }
}

/// The number of rows above a question's answer rows.
pub fn questionnaire_question_prefix_line_count(question: &QuestionnaireQuestion, width: usize) -> (n: usize)
    ensures
        n == rows_of_all(prefix_texts(*question), width as nat).len(),
{
    let mut texts: Vec<String> = Vec::new();
    let mut title = String::new();
    push_str(&mut title, "> 1. ");
    push_str(&mut title, question.question.as_str());
    if !question.required {
        push_str(&mut title, " optional");
    }
    texts.push(title);
    if let Some(help) = &question.help {
        let mut h = String::new();
        push_str(&mut h, "  help: ");
        push_str(&mut h, help.as_str());
        texts.push(h);
    }
    let hint = questionnaire_answer_hint(question);
    if chars_of(hint.as_str()).len() > 0 {
        let mut h = String::new();
        push_str(&mut h, "  ");
        push_str(&mut h, hint.as_str());
        texts.push(h);
    }
    let ghost ts = prefix_texts(*question);
    assert(strings_view(texts@) =~= ts);
    let mut rows: Vec<String> = Vec::new();
    let k = texts.len();
    let mut i: usize = 0;
    while i < k
        invariant
            k == texts@.len(),
            i <= k,
            strings_view(texts@) == ts,
            strings_view(rows@) == rows_of_all(ts.take(i as int), width as nat),
        decreases k - i,
    {
        let more = wrapped_text_rows(texts[i].as_str(), width);
        extend_strings(&mut rows, more);
        proof {
            assert(ts.take(i as int + 1).drop_last() =~= ts.take(i as int));
            assert(ts[i as int] == texts@[i as int]@);
        }
        i += 1;
    }
    assert(ts.take(k as int) =~= ts);
    rows.len()
}

// ---------------------------------------------------------------------
// Answers
// ---------------------------------------------------------------------

/// A normalised answer: nothing, one text, or a list of texts.
#[derive(Clone, Debug)]
pub enum AnswerValue {
    Null,
    Text(String),
    List(Vec<String>),
}

/// An answer as a mathematical value.
pub enum AnswerView {
    Null,
    Text(Seq<char>),
    List(Seq<Seq<char>>),
}

impl View for AnswerValue {
    type V = AnswerView;

    open spec fn view(&self) -> AnswerView {
        match self {
            AnswerValue::Null => AnswerView::Null,
            AnswerValue::Text(t) => AnswerView::Text(t@),
            AnswerValue::List(l) => AnswerView::List(strings_view(l@)),
        }
    }
}

/// The answer to one question, by the question's id.
#[derive(Clone, Debug)]
pub struct QuestionnaireAnswer {
    pub id: String,
    pub answer: AnswerValue,
}

/// All answers of a questionnaire.
#[derive(Clone, Debug)]
pub struct QuestionnaireResponse {
    pub answers: Vec<QuestionnaireAnswer>,
}

/// A questionnaire: an optional title, the reason it is asked, and its
/// questions.
#[derive(Debug)]
pub struct QuestionnaireRequest {
    pub title: Option<String>,
    pub reason: Option<String>,
    pub questions: Vec<QuestionnaireQuestion>,
}

/// A free-text answer: trimmed, and refused when empty for a required
/// question.
pub open spec fn text_answer(q: QuestionnaireQuestion, value: Seq<char>) -> Result<Seq<char>, Seq<char>> {
    let t = trim_seq(value);
    if t.len() == 0 && q.required {
        Err("answer cannot be empty"@)
    } else {
        Ok(t)
    }
}

pub open spec fn result_view(r: Result<String, String>) -> Result<Seq<char>, Seq<char>> {
    match r {
        Ok(t) => Ok(t@),
        Err(e) => Err(e@),
    }
}

/// The free-text answer to `question` (see `text_answer`).
pub fn normalize_text_answer(question: &QuestionnaireQuestion, value: &str) -> (r: Result<String, String>)
    ensures
        result_view(r) == text_answer(*question, value@),
{
    let answer = trim(value);
    if chars_of(answer.as_str()).len() == 0 && question.required {
        Err(String::from_str("answer cannot be empty"))
    } else {
        Ok(answer)
    }
}

/// The chosen texts among `selected`, skipping indices past the choices.
pub open spec fn chosen_texts(choices: Seq<String>, selected: Seq<usize>) -> Seq<Seq<char>>
    decreases selected.len(),
{
    if selected.len() == 0 {
        Seq::empty()
    } else {
        let p = chosen_texts(choices, selected.drop_last());
        if selected.last() < choices.len() {
            p.push(choices[selected.last() as int]@)
        } else {
            p
        }
    }
}

/// The answer a field gives to its question, or why it gives none.
pub open spec fn answer_of(q: QuestionnaireQuestion, f: QuestionnaireFieldState) -> Result<AnswerView, Seq<char>> {
    let not_selected = Err("answer is not selected"@);
    match q.kind {
        QuestionnaireQuestionKind::Text => match text_answer(q, f.other_value@) {
            Ok(t) => Ok(AnswerView::Text(t)),
            Err(e) => Err(e),
        },
        QuestionnaireQuestionKind::Choice => match f.selection@ {
            SelectionView::Single(i) => if i < q.choices@.len() {
                Ok(AnswerView::Text(q.choices@[i as int]@))
            } else {
                not_selected
            },
            SelectionView::Other => match text_answer(q, f.other_value@) {
                Ok(t) => Ok(AnswerView::Text(t)),
                Err(e) => Err(e),
            },
            SelectionView::Unselected => if !q.required {
                Ok(AnswerView::Null)
            } else {
                not_selected
            },
            _ => not_selected,
        },
        QuestionnaireQuestionKind::MultiSelect => match f.selection@ {
            SelectionView::Multi(s, o) => {
                let chosen = chosen_texts(q.choices@, s);
                let with_other: Result<Seq<Seq<char>>, Seq<char>> = if o {
                    match text_answer(q, f.other_value@) {
                        Ok(t) => Ok(
                            if t.len() > 0 {
                                chosen.push(t)
                            } else {
                                chosen
                            },
                        ),
                        Err(e) => Err(e),
                    }
                } else {
                    Ok(chosen)
                };
                match with_other {
                    Err(e) => Err(e),
                    Ok(all) => if all.len() == 0 && q.required {
                        Err("select at least one answer"@)
                    } else {
                        Ok(AnswerView::List(all))
                    },
                }
            },
            _ => not_selected,
        },
        QuestionnaireQuestionKind::Confirm => match f.selection@ {
            SelectionView::Single(i) => if i == 0 {
                Ok(AnswerView::Text("yes"@))
            } else if i == 1 {
                Ok(AnswerView::Text("no"@))
            } else {
                not_selected
            },
            SelectionView::Unselected => if !q.required {
                Ok(AnswerView::Null)
            } else {
                not_selected
            },
            _ => not_selected,
        },
    }
}

pub open spec fn answer_result_view(r: Result<AnswerValue, String>) -> Result<AnswerView, Seq<char>> {
    match r {
        Ok(a) => Ok(a@),
        Err(e) => Err(e@),
    }
}

/// The answer a field gives to its question, or why it gives none.
pub fn normalize_questionnaire_answer(
    question: &QuestionnaireQuestion,
    field: &QuestionnaireFieldState,
) -> (r: Result<AnswerValue, String>)
    ensures
        answer_result_view(r) == answer_of(*question, *field),
{
    match question.kind {
        QuestionnaireQuestionKind::Text => match normalize_text_answer(question, field.other_value.as_str()) {
            Ok(t) => Ok(AnswerValue::Text(t)),
            Err(e) => Err(e),
        },
        QuestionnaireQuestionKind::Choice => match &field.selection {
            FieldSelection::Single(index) => if *index < question.choices.len() {
                Ok(AnswerValue::Text(question.choices[*index].clone()))
            } else {
                Err(String::from_str("answer is not selected"))
            },
            FieldSelection::Other => match normalize_text_answer(question, field.other_value.as_str()) {
                Ok(t) => Ok(AnswerValue::Text(t)),
                Err(e) => Err(e),
            },
            FieldSelection::Unselected => if !question.required {
                Ok(AnswerValue::Null)
            } else {
                Err(String::from_str("answer is not selected"))
            },
            FieldSelection::Text | FieldSelection::Multi { .. } => Err(String::from_str("answer is not selected")),
        },
        QuestionnaireQuestionKind::MultiSelect => match &field.selection {
            FieldSelection::Multi { selected, other } => {
                let mut answers: Vec<String> = Vec::new();
                let n = selected.len();
                let mut i: usize = 0;
                while i < n
                    invariant
                        n == selected@.len(),
                        i <= n,
                        strings_view(answers@) == chosen_texts(question.choices@, selected@.take(i as int)),
                    decreases n - i,
                {
                    assert(selected@.take(i as int + 1).drop_last() =~= selected@.take(i as int));
                    let index = selected[i];
                    if index < question.choices.len() {
                        answers.push(question.choices[index].clone());
                        assert(strings_view(answers@) =~= chosen_texts(question.choices@, selected@.take(i as int + 1)));
                    }
                    i += 1;
                }
                assert(selected@.take(n as int) =~= selected@);
                if *other {
                    match normalize_text_answer(question, field.other_value.as_str()) {
                        Ok(t) => {
                            if chars_of(t.as_str()).len() > 0 {
                                let ghost before = answers@;
                                answers.push(t);
                                assert(strings_view(answers@) =~= strings_view(before).push(answers@.last()@));
                            }
                        },
                        Err(e) => return Err(e),
                    }
                }
                if answers.len() == 0 && question.required {
                    return Err(String::from_str("select at least one answer"));
                }
                Ok(AnswerValue::List(answers))
            },
            FieldSelection::Text
            | FieldSelection::Unselected
            | FieldSelection::Single(_)
            | FieldSelection::Other => Err(String::from_str("answer is not selected")),
        },
        QuestionnaireQuestionKind::Confirm => match &field.selection {
            FieldSelection::Single(index) => if *index == 0 {
                Ok(AnswerValue::Text(String::from_str("yes")))
            } else if *index == 1 {
                Ok(AnswerValue::Text(String::from_str("no")))
            } else {
                Err(String::from_str("answer is not selected"))
            },
            FieldSelection::Unselected => if !question.required {
                Ok(AnswerValue::Null)
            } else {
                Err(String::from_str("answer is not selected"))
            },
            FieldSelection::Text | FieldSelection::Multi { .. } | FieldSelection::Other => Err(
                String::from_str("answer is not selected"),
            ),
        },
    }
}

/// How an answer is shown: its text, its texts joined by ", ", or nothing.
pub open spec fn answer_display(a: AnswerView) -> Seq<char> {
    match a {
        AnswerView::Null => Seq::empty(),
        AnswerView::Text(t) => t,
        AnswerView::List(l) => join_seqs(l, ", "@),
    }
}

/// How an answer is shown.
pub fn questionnaire_answer_display(answer: &AnswerValue) -> (s: String)
    ensures
        s@ == answer_display(answer@),
{
    match answer {
        AnswerValue::Null => String::new(),
        AnswerValue::Text(t) => t.clone(),
        AnswerValue::List(l) => join_strings(l, ", "),
    }
}

/// The answers of all pairs of question and field, in order, or the first
/// refusal, prefixed with the question's number.
pub open spec fn answers_of(qs: Seq<QuestionnaireQuestion>, fs: Seq<QuestionnaireFieldState>, n: int) -> Result<Seq<(Seq<char>, AnswerView)>, Seq<char>>
    decreases n,
{
    if n <= 0 {
        Ok(Seq::empty())
    } else {
        match answers_of(qs, fs, n - 1) {
            Err(e) => Err(e),
            Ok(prev) => match answer_of(qs[n - 1], fs[n - 1]) {
                Err(e) => Err("question "@ + decimal(n as nat) + ": "@ + e),
                Ok(a) => Ok(prev.push((qs[n - 1].id@, a))),
            },
        }
    }
}

pub open spec fn answer_list_view(v: Seq<QuestionnaireAnswer>) -> Seq<(Seq<char>, AnswerView)> {
    Seq::new(v.len(), |i: int| (v[i].id@, v[i].answer@))
}

/// The answers of a questionnaire, pairing each question with its field
/// (as many as both have), or the first question that cannot be answered.
pub fn questionnaire_answers(
    request: &QuestionnaireRequest,
    fields: &Vec<QuestionnaireFieldState>,
) -> (r: Result<Vec<QuestionnaireAnswer>, String>)
    ensures
        ({
            let n = if request.questions@.len() < fields@.len() {
                request.questions@.len()
            } else {
                fields@.len()
            };
            match r {
                Ok(v) => answers_of(request.questions@, fields@, n as int) == Ok::<Seq<(Seq<char>, AnswerView)>, Seq<char>>(answer_list_view(v@)),
                Err(e) => answers_of(request.questions@, fields@, n as int) == Err::<Seq<(Seq<char>, AnswerView)>, Seq<char>>(e@),
            }
        }),
{
    let n = if request.questions.len() < fields.len() {
        request.questions.len()
    } else {
        fields.len()
    };
    let mut out: Vec<QuestionnaireAnswer> = Vec::new();
    assert(answer_list_view(out@) =~= Seq::<(Seq<char>, AnswerView)>::empty());
    let mut i: usize = 0;
    while i < n
        invariant
            n == (if request.questions@.len() < fields@.len() {
                request.questions@.len()
            } else {
                fields@.len()
            }),
            i <= n,
            answers_of(request.questions@, fields@, i as int) == Ok::<Seq<(Seq<char>, AnswerView)>, Seq<char>>(answer_list_view(out@)),
        decreases n - i,
    {
        let question = &request.questions[i];
        match normalize_questionnaire_answer(question, &fields[i]) {
            Ok(answer) => {
                let ghost before = out@;
                out.push(QuestionnaireAnswer { id: question.id.clone(), answer });
                assert(answer_list_view(out@) =~= answer_list_view(before).push((question.id@, out@.last().answer@)));
            },
            Err(error) => {
                let mut message = String::new();
                push_str(&mut message, "question ");
                let number = decimal_string(i as u64 + 1);
                push_str(&mut message, number.as_str());
                push_str(&mut message, ": ");
                push_str(&mut message, error.as_str());
                proof {
                    assert(message@ =~= "question "@ + decimal((i + 1) as nat) + ": "@ + error@);
                    assert(answers_of(request.questions@, fields@, i as int + 1) == Err::<Seq<(Seq<char>, AnswerView)>, Seq<char>>(message@));
                    lemma_answers_stop(request.questions@, fields@, i as int + 1, n as int);
                    assert(answers_of(request.questions@, fields@, n as int) == Err::<Seq<(Seq<char>, AnswerView)>, Seq<char>>(message@));
                }
                return Err(message);
            },
        }
        i += 1;
    }
    Ok(out)
}

proof fn lemma_answers_stop(qs: Seq<QuestionnaireQuestion>, fs: Seq<QuestionnaireFieldState>, k: int, n: int)
    requires
        1 <= k <= n,
        answers_of(qs, fs, k) is Err,
    ensures
        answers_of(qs, fs, n) == answers_of(qs, fs, k),
    decreases n - k,
{
    if k < n {
        lemma_answers_stop(qs, fs, k, n - 1);
    }
}

/// The text of the first question, from `j` on, whose id is `id`.
pub open spec fn question_text_for(qs: Seq<QuestionnaireQuestion>, id: Seq<char>, j: int) -> Option<Seq<char>>
    decreases qs.len() - j,
{
    if j < 0 || j >= qs.len() {
        None
    } else if qs[j].id@ == id {
        Some(qs[j].question@)
    } else {
        question_text_for(qs, id, j + 1)
    }
}

/// The label of an answer: its question's text, else its id.
pub open spec fn answer_label(qs: Seq<QuestionnaireQuestion>, a: QuestionnaireAnswer) -> Seq<char> {
    match question_text_for(qs, a.id@, 0) {
        Some(t) => t,
        None => a.id@,
    }
}

/// The lines shown for several answers: the title (or a generic heading),
/// then one "label: answer" line per answer.
pub open spec fn answer_lines(request: QuestionnaireRequest, answers: Seq<QuestionnaireAnswer>) -> Seq<Seq<char>> {
    let head = match request.title {
        Some(t) => t@,
        None => "questionnaire answers"@,
    };
    seq![head] + Seq::new(
        answers.len(),
        |i: int|
            answer_label(request.questions@, answers[i]) + ": "@ + answer_display(answers[i].answer@),
    )
}

/// What the transcript shows for a submitted questionnaire: a lone answer
/// as it is, several as titled lines.
pub open spec fn submitted_entry(request: QuestionnaireRequest, answers: Seq<QuestionnaireAnswer>) -> Seq<char> {
    if answers.len() == 1 {
        answer_display(answers[0].answer@)
    } else {
        join_seqs(answer_lines(request, answers), "\n"@)
    }
}

fn answer_label_of(request: &QuestionnaireRequest, answer: &QuestionnaireAnswer) -> (l: String)
    ensures
        l@ == answer_label(request.questions@, *answer),
{
    let n = request.questions.len();
    let mut j: usize = 0;
    while j < n
        invariant
            n == request.questions@.len(),
            j <= n,
            question_text_for(request.questions@, answer.id@, 0) == question_text_for(
                request.questions@,
                answer.id@,
                j as int,
            ),
        decreases n - j,
    {
        if request.questions[j].id == answer.id {
            return request.questions[j].question.clone();
        }
        j += 1;
    }
    answer.id.clone()
}

/// What the transcript shows for a submitted questionnaire.
pub fn submitted_questionnaire_entry(request: &QuestionnaireRequest, response: &QuestionnaireResponse) -> (s: String)
    ensures
        s@ == submitted_entry(*request, response.answers@),
{
    if response.answers.len() == 1 {
        return questionnaire_answer_display(&response.answers[0].answer);
    }
    let mut lines: Vec<String> = Vec::new();
    match &request.title {
        Some(title) => lines.push(title.clone()),
        None => lines.push(String::from_str("questionnaire answers")),
    }
    let n = response.answers.len();
    let mut i: usize = 0;
    while i < n
        invariant
            n == response.answers@.len(),
            i <= n,
            strings_view(lines@) == answer_lines(*request, response.answers@.take(i as int)),
        decreases n - i,
    {
        let answer = &response.answers[i];
        let mut line = answer_label_of(request, answer);
        push_str(&mut line, ": ");
        let shown = questionnaire_answer_display(&answer.answer);
        push_str(&mut line, shown.as_str());
        assert(line@ =~= answer_label(request.questions@, *answer) + ": "@ + answer_display(answer.answer@));
        let ghost before = lines@;
        lines.push(line);
        proof {
            let a = response.answers@;
            let old_l = answer_lines(*request, a.take(i as int));
            let new_l = answer_lines(*request, a.take(i as int + 1));
            assert(strings_view(before) == old_l);
            assert(new_l.len() == old_l.len() + 1);
            assert forall|j: int| 0 <= j < new_l.len() implies strings_view(lines@)[j] == new_l[j] by {
                if j == 0 {
                    assert(strings_view(lines@)[0] == strings_view(before)[0]);
                } else if j < old_l.len() {
                    assert(a.take(i as int + 1)[j - 1] == a.take(i as int)[j - 1]);
                    assert(strings_view(lines@)[j] == strings_view(before)[j]);
                } else {
                    assert(a.take(i as int + 1)[j - 1] == a[i as int]);
                }
            }
            assert(strings_view(lines@) =~= new_l);
        }
        i += 1;
    }
    assert(response.answers@.take(n as int) =~= response.answers@);
    join_strings(&lines, "\n")
}

/// The notice shown when the agent asks: the title, the lone question, or
/// the number of questions.
pub open spec fn notice_text(request: QuestionnaireRequest) -> Seq<char> {
    match request.title {
        Some(t) => "agent asks: "@ + t@,
        None => if request.questions@.len() == 1 {
            "agent asks: "@ + request.questions@[0].question@
        } else {
            "agent asks "@ + decimal(request.questions@.len()) + " questions"@
        },
    }
}

/// The notice shown when the agent asks a questionnaire.
pub fn questionnaire_notice_text(request: &QuestionnaireRequest) -> (s: String)
    ensures
        s@ == notice_text(*request),
{
    let mut s = String::new();
    match &request.title {
        Some(title) => {
            push_str(&mut s, "agent asks: ");
            push_str(&mut s, title.as_str());
        },
        None => if request.questions.len() == 1 {
            push_str(&mut s, "agent asks: ");
            push_str(&mut s, request.questions[0].question.as_str());
        } else {
            push_str(&mut s, "agent asks ");
            let count = decimal_string(request.questions.len() as u64);
            push_str(&mut s, count.as_str());
            push_str(&mut s, " questions");
        },
    }
    s
}

} // verus!
