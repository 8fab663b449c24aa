//! How the questionnaire composer is drawn: its rows, each with a tone, and
//! where the cursor stands.
use vstd::prelude::*;
use crate::composer::edit_at;
use crate::questionnaire::{
    choice_count, choice_label, count_choices, entry_active, hint_parts, join_seqs, other_selected, prefix_texts,
    questionnaire_answer_hint, questionnaire_choice_label, questionnaire_other_selected,
    questionnaire_question_prefix_line_count, questionnaire_selection_marker, rows_of_all, selection_marker,
    wrapped_line_count, QuestionnaireFieldState, QuestionnaireQuestion, QuestionnaireQuestionKind,
};
use crate::questionnaire_composer::{composer_ok, QuestionnaireComposer};
use crate::text::{chars_of, decimal, decimal_string, push_str, repeat, repeat_char, text_fits};
use crate::width::{display_w, display_width, one_line_result, strings_view, truncate_one_line};
use crate::wrap::{
    input_cursor_position, input_visual_lines, visual_lines, wrapped_rows, wrapped_text_rows, CursorPosition,
};

verus! {

/// How a row of the questionnaire is drawn: as the prompt, dimmed, or as
/// plain text.
#[derive(Clone, Copy, Debug, PartialEq, Eq, Structural)]
pub enum RowTone {
    Prompt,
    Dim,
    Text,
}

/// A drawn row.
#[derive(Clone, Debug)]
pub struct ToneRow {
    pub text: String,
    pub tone: RowTone,
}

pub open spec fn rows_view(v: Seq<ToneRow>) -> Seq<(Seq<char>, RowTone)> {
    Seq::new(v.len(), |i: int| (v[i].text@, v[i].tone))
}

/// Every row of `rows` drawn in `tone`.
pub open spec fn toned(rows: Seq<Seq<char>>, tone: RowTone) -> Seq<(Seq<char>, RowTone)> {
    Seq::new(rows.len(), |i: int| (rows[i], tone))
}

/// `text` wrapped at white space to `width` columns, drawn in `tone`.
pub open spec fn wrapped_toned(text: Seq<char>, width: nat, tone: RowTone) -> Seq<(Seq<char>, RowTone)> {
    toned(wrapped_rows(text, width), tone)
}

/// The columns left for an input after its prefix (at least one).
pub open spec fn input_width(prefix: Seq<char>, width: nat) -> nat {
    if width > display_w(prefix) + 1 {
        (width - display_w(prefix)) as nat
    } else {
        1
    }
}

/// The rows of an input shown after `prefix`: the first row starts with the
/// prefix, the others with as many spaces.
pub open spec fn prefixed_rows(prefix: Seq<char>, value: Seq<char>, width: nat) -> Seq<Seq<char>> {
    let rows = visual_lines(value, input_width(prefix, width));
    Seq::new(
        rows.len(),
        |i: int|
            if i == 0 {
                prefix + rows[i]
            } else {
                repeat_char(' ', display_w(prefix)) + rows[i]
            },
    )
}

/// The heading of question `index` (counted from zero).
pub open spec fn question_title(q: QuestionnaireQuestion, index: nat, active: bool) -> Seq<char> {
    (if active {
        ">"@
    } else {
        " "@
    }) + " "@ + decimal(index + 1) + ". "@ + q.question@ + if q.required {
        Seq::<char>::empty()
    } else {
        " optional"@
    }
}

/// The heading rows of a question: its title, its help and its answer hint.
pub open spec fn question_header(q: QuestionnaireQuestion, index: nat, active: bool, width: nat) -> Seq<
    (Seq<char>, RowTone),
> {
    let title = wrapped_toned(
        question_title(q, index, active),
        width,
        if active {
            RowTone::Prompt
        } else {
            RowTone::Dim
        },
    );
    let help = match q.help {
        Some(h) => wrapped_toned("  help: "@ + h@, width, RowTone::Dim),
        None => Seq::empty(),
    };
    let hint = join_seqs(hint_parts(q), " · "@);
    let hint_rows = if hint.len() > 0 {
        wrapped_toned("  "@ + hint, width, RowTone::Dim)
    } else {
        Seq::empty()
    };
    title + help + hint_rows
}

/// The row text of choice `ci`.
pub open spec fn choice_text(q: QuestionnaireQuestion, f: QuestionnaireFieldState, ci: usize, highlighted: bool) -> Seq<
    char,
> {
    (if highlighted {
        " >"@
    } else {
        "  "@
    }) + " "@ + selection_marker(q, f.selection@, ci) + " "@ + choice_label(q, ci)
}

/// The prefix of the "other" answer's input.
pub open spec fn other_prefix() -> Seq<char> {
    "      other: "@
}

/// The rows of the first `n` choices (with the "other" input under the
/// "other" row while it is selected).
pub open spec fn choice_rows(q: QuestionnaireQuestion, f: QuestionnaireFieldState, active: bool, width: nat, n: int) -> Seq<
    (Seq<char>, RowTone),
>
    decreases n,
{
    if n <= 0 {
        Seq::empty()
    } else {
        let ci = (n - 1) as usize;
        let highlighted = active && f.choice_cursor == ci;
        let row = wrapped_toned(
            choice_text(q, f, ci, highlighted),
            width,
            if highlighted {
                RowTone::Prompt
            } else {
                RowTone::Text
            },
        );
        let other = if q.allow_other && ci == q.choices@.len() && other_selected(f.selection@) {
            toned(prefixed_rows(other_prefix(), f.other_value@, width), RowTone::Text)
        } else {
            Seq::empty()
        };
        choice_rows(q, f, active, width, n - 1) + row + other
    }
}

/// All rows of question `index`.
pub open spec fn question_rows(q: QuestionnaireQuestion, f: QuestionnaireFieldState, index: nat, active: bool, width: nat) -> Seq<
    (Seq<char>, RowTone),
> {
    question_header(q, index, active, width) + if q.kind == QuestionnaireQuestionKind::Text {
        toned(prefixed_rows("  "@, f.other_value@, width), RowTone::Text)
    } else {
        choice_rows(q, f, active, width, count_choices(q))
    }
}

/// The keys line under the questionnaire's heading.
pub open spec fn keys_text() -> Seq<char> {
    "enter submit · up/down choose · space toggle · tab next · type only for other"@
}

/// The heading rows of the questionnaire, `keys_row` being its keys line
/// cut to the width.
pub open spec fn frame_header(c: QuestionnaireComposer, width: nat, keys_row: Seq<char>) -> Seq<(Seq<char>, RowTone)> {
    let title = match c.request.title {
        Some(t) => t@,
        None => "answer "@ + decimal(c.request.questions@.len()) + " question(s)"@,
    };
    wrapped_toned(title, width, RowTone::Prompt) + reason_rows(c, width) + seq![(keys_row, RowTone::Dim)]
}

/// The row(s) giving the reason a questionnaire is asked, if any.
pub open spec fn reason_rows(c: QuestionnaireComposer, width: nat) -> Seq<(Seq<char>, RowTone)> {
    match c.request.reason {
        Some(r) => wrapped_toned("reason: "@ + r@, width, RowTone::Dim),
        None => Seq::empty(),
    }
}

/// The rows of the first `n` questions.
pub open spec fn questions_rows(c: QuestionnaireComposer, width: nat, n: int) -> Seq<(Seq<char>, RowTone)>
    decreases n,
{
    if n <= 0 {
        Seq::empty()
    } else {
        questions_rows(c, width, n - 1) + question_rows(
            c.request.questions@[n - 1],
            c.fields@[n - 1],
            (n - 1) as nat,
            c.active_index == n - 1,
            width,
        )
    }
}

/// The whole questionnaire.
pub open spec fn frame_rows(c: QuestionnaireComposer, width: nat, keys_row: Seq<char>) -> Seq<(Seq<char>, RowTone)> {
    frame_header(c, width, keys_row) + questions_rows(c, width, c.fields@.len() as int)
}

// ---------------------------------------------------------------------
// Cursor
// ---------------------------------------------------------------------

/// A row number as the screen holds it: its lowest sixteen bits.
pub open spec fn row16(y: nat) -> u16 {
    (y % 65536) as u16
}

/// `a + b`, stopping at the largest `u16`.
pub open spec fn add_u16(a: u16, b: u16) -> u16 {
    if a + b > u16::MAX {
        u16::MAX
    } else {
        (a + b) as u16
    }
}

/// The cursor in an input shown after `prefix` from row `start_y` on.
pub open spec fn prefixed_cursor(value: Seq<char>, cursor: int, prefix: Seq<char>, start_y: nat, width: nat) -> CursorPosition {
    let lines = visual_lines(value.take(edit_at(value, cursor)), input_width(prefix, width));
    CursorPosition {
        x: add_u16(display_w(lines.last()) as u16, display_w(prefix) as u16),
        y: add_u16((lines.len() - 1) as u16, row16(start_y)),
    }
}

/// The cursor among the choices from choice `ci` on, row `y` being where
/// that choice starts: the highlighted choice's row (or, while typing the
/// "other" answer, its input), or below the last choice.
pub open spec fn choice_cursor_from(q: QuestionnaireQuestion, f: QuestionnaireFieldState, width: nat, ci: int, y: nat) -> CursorPosition
    decreases count_choices(q) - ci,
{
    if ci < 0 || ci >= count_choices(q) {
        CursorPosition { x: 1, y: row16(y) }
    } else if f.choice_cursor == ci {
        if q.allow_other && ci == q.choices@.len() && entry_active(f.selection@, f.choice_cursor, q) {
            let option_rows = wrapped_rows(
                " > "@ + selection_marker(q, f.selection@, ci as usize) + " "@ + choice_label(q, ci as usize),
                width,
            ).len();
            prefixed_cursor(f.other_value@, f.other_cursor as int, other_prefix(), y + option_rows, width)
        } else {
            CursorPosition { x: 1, y: row16(y) }
        }
    } else {
        let rows = wrapped_rows(
            "   "@ + selection_marker(q, f.selection@, ci as usize) + " "@ + choice_label(q, ci as usize),
            width,
        ).len();
        let other = if q.allow_other && ci == q.choices@.len() && other_selected(f.selection@) {
            visual_lines(f.other_value@, input_width(other_prefix(), width)).len()
        } else {
            0
        };
        choice_cursor_from(q, f, width, ci + 1, y + rows + other)
    }
}

/// The cursor of a question whose rows start at `start_y`.
pub open spec fn question_cursor(q: QuestionnaireQuestion, f: QuestionnaireFieldState, start_y: nat, width: nat) -> CursorPosition {
    let prefix_height = rows_of_all(prefix_texts(q), width).len();
    if q.kind == QuestionnaireQuestionKind::Text {
        prefixed_cursor(f.other_value@, f.other_cursor as int, "  "@, start_y + prefix_height, width)
    } else {
        choice_cursor_from(q, f, width, 0, start_y + prefix_height)
    }
}

/// The cursor of the questionnaire: in its active question.
pub open spec fn frame_cursor(c: QuestionnaireComposer, width: nat, keys_row: Seq<char>) -> CursorPosition {
    let start = frame_header(c, width, keys_row).len() + questions_rows(c, width, c.active_index as int).len();
    question_cursor(active_question_of(c), active_field_of(c), start, width)
}

pub open spec fn active_question_of(c: QuestionnaireComposer) -> QuestionnaireQuestion {
    c.request.questions@[c.active_index as int]
}

pub open spec fn active_field_of(c: QuestionnaireComposer) -> QuestionnaireFieldState {
    c.fields@[c.active_index as int]
}

/// Whether every answer text fits the width arithmetic.
pub open spec fn answers_fit(c: QuestionnaireComposer) -> bool {
    forall|k: int| 0 <= k < c.fields@.len() ==> text_fits(#[trigger] c.fields@[k].other_value@)
}

// ---------------------------------------------------------------------
// Drawing
// ---------------------------------------------------------------------

fn push_rows(lines: &mut Vec<ToneRow>, rows: Vec<String>, tone: RowTone)
    ensures
        rows_view(final(lines)@) == rows_view(old(lines)@) + toned(strings_view(rows@), tone),
{
    let ghost before = lines@;
    let n = rows.len();
    let mut i: usize = 0;
    while i < n
        invariant
            n == rows@.len(),
            i <= n,
            rows_view(lines@) == rows_view(before) + toned(strings_view(rows@).take(i as int), tone),
        decreases n - i,
    {
        let ghost b = lines@;
        lines.push(ToneRow { text: rows[i].clone(), tone });
        assert(rows_view(lines@) =~= rows_view(b).push((rows@[i as int]@, tone)));
        assert(toned(strings_view(rows@).take(i as int + 1), tone) =~= toned(strings_view(rows@).take(i as int), tone).push(
            (rows@[i as int]@, tone),
        ));
        i += 1;
    }
    assert(strings_view(rows@).take(n as int) =~= strings_view(rows@));
}

fn push_wrapped(lines: &mut Vec<ToneRow>, text: &str, width: usize, tone: RowTone)
    ensures
        rows_view(final(lines)@) == rows_view(old(lines)@) + wrapped_toned(text@, width as nat, tone),
{
    let rows = wrapped_text_rows(text, width);
    push_rows(lines, rows, tone);
}

fn input_width_of(prefix: &str, width: usize) -> (w: usize)
    requires
        text_fits(prefix@),
    ensures
        w == input_width(prefix@, width as nat),
{
    let pw = display_width(prefix);
    if width > pw && width - pw > 1 {
        width - pw
    } else {
        1
    }
}

fn push_prefixed_input_lines(lines: &mut Vec<ToneRow>, prefix: &str, value: &str, width: usize, tone: RowTone)
    requires
        text_fits(prefix@),
    ensures
        rows_view(final(lines)@) == rows_view(old(lines)@) + toned(prefixed_rows(prefix@, value@, width as nat), tone),
{
    let pw = display_width(prefix);
    let iw = input_width_of(prefix, width);
    let continuation = repeat(' ', pw);
    let visual = input_visual_lines(value, iw);
    let ghost vl = visual_lines(value@, iw as nat);
    let mut rows: Vec<String> = Vec::new();
    let n = visual.len();
    let mut i: usize = 0;
    while i < n
        invariant
            n == visual@.len(),
            strings_view(visual@) == vl,
            i <= n,
            continuation@ == repeat_char(' ', pw as nat),
            pw == display_w(prefix@),
            strings_view(rows@) == prefixed_rows(prefix@, value@, width as nat).take(i as int),
            iw == input_width(prefix@, width as nat),
            vl == visual_lines(value@, iw as nat),
        decreases n - i,
    {
        let mut row = String::new();
        if i == 0 {
            push_str(&mut row, prefix);
        } else {
            push_str(&mut row, continuation.as_str());
        }
        push_str(&mut row, visual[i].as_str());
        let ghost b = rows@;
        rows.push(row);
        proof {
            assert(vl[i as int] == visual@[i as int]@);
            assert(strings_view(rows@) =~= strings_view(b).push(row@));
            assert(prefixed_rows(prefix@, value@, width as nat).take(i as int + 1) =~= prefixed_rows(
                prefix@,
                value@,
                width as nat,
            ).take(i as int).push(row@));
        }
        i += 1;
    }
    assert(prefixed_rows(prefix@, value@, width as nat).take(n as int) =~= prefixed_rows(prefix@, value@, width as nat));
    push_rows(lines, rows, tone);
}

fn push_question_header(
    lines: &mut Vec<ToneRow>,
    question: &QuestionnaireQuestion,
    index: usize,
    active: bool,
    width: usize,
)
    requires
        index < usize::MAX,
    ensures
        rows_view(final(lines)@) == rows_view(old(lines)@) + question_header(*question, index as nat, active, width as nat),
{
    let ghost before = rows_view(lines@);
    let mut title = String::new();
    push_str(&mut title, if active { ">" } else { " " });
    push_str(&mut title, " ");
    push_str(&mut title, decimal_string((index + 1) as u64).as_str());
    push_str(&mut title, ". ");
    push_str(&mut title, question.question.as_str());
    if !question.required {
        push_str(&mut title, " optional");
    }
    assert(title@ =~= question_title(*question, index as nat, active));
    push_wrapped(
        lines,
        title.as_str(),
        width,
        if active {
            RowTone::Prompt
        } else {
            RowTone::Dim
        },
    );
    let ghost after_title = rows_view(lines@);
    if let Some(help) = &question.help {
        let mut h = String::new();
        push_str(&mut h, "  help: ");
        push_str(&mut h, help.as_str());
        push_wrapped(lines, h.as_str(), width, RowTone::Dim);
    }
    let ghost after_help = rows_view(lines@);
    let hint = questionnaire_answer_hint(question);
    if chars_of(hint.as_str()).len() > 0 {
        let mut h = String::new();
        push_str(&mut h, "  ");
        push_str(&mut h, hint.as_str());
        push_wrapped(lines, h.as_str(), width, RowTone::Dim);
    }
    proof {
        let q = *question;
        let help_rows = match q.help {
            Some(h) => wrapped_toned("  help: "@ + h@, width as nat, RowTone::Dim),
            None => Seq::empty(),
        };
        assert(after_help =~= after_title + help_rows);
        assert(rows_view(lines@) =~= before + question_header(q, index as nat, active, width as nat));
    }
}

fn push_choice_rows(
    lines: &mut Vec<ToneRow>,
    question: &QuestionnaireQuestion,
    field: &QuestionnaireFieldState,
    active: bool,
    width: usize,
)
    requires
        crate::questionnaire::choices_fit(*question),
    ensures
        rows_view(final(lines)@) == rows_view(old(lines)@) + choice_rows(
            *question,
            *field,
            active,
            width as nat,
            count_choices(*question),
        ),
{
    let ghost before = rows_view(lines@);
    let count = choice_count(question);
    let mut ci: usize = 0;
    while ci < count
        invariant
            ci <= count,
            count == count_choices(*question),
            rows_view(lines@) == before + choice_rows(*question, *field, active, width as nat, ci as int),
            crate::questionnaire::choices_fit(*question),
        decreases count - ci,
    {
        let highlighted = active && field.choice_cursor == ci;
        let marker = questionnaire_selection_marker(question, field, ci);
        let label = questionnaire_choice_label(question, ci);
        let mut row = String::new();
        push_str(&mut row, if highlighted { " >" } else { "  " });
        push_str(&mut row, " ");
        push_str(&mut row, marker);
        push_str(&mut row, " ");
        push_str(&mut row, label.as_str());
        let ghost b = rows_view(lines@);
        push_wrapped(
            lines,
            row.as_str(),
            width,
            if highlighted {
                RowTone::Prompt
            } else {
                RowTone::Text
            },
        );
        let ghost after_row = rows_view(lines@);
        let shows_other = question.allow_other && ci == question.choices.len() && questionnaire_other_selected(field);
        if shows_other {
            proof {
                reveal_strlit("      other: ");
            }
            push_prefixed_input_lines(lines, "      other: ", field.other_value.as_str(), width, RowTone::Text);
        }
        proof {
            assert(row@ =~= choice_text(*question, *field, ci, highlighted));
            let other = if shows_other {
                toned(prefixed_rows(other_prefix(), field.other_value@, width as nat), RowTone::Text)
            } else {
                Seq::empty()
            };
            assert(rows_view(lines@) =~= after_row + other);
            assert(rows_view(lines@) =~= before + choice_rows(*question, *field, active, width as nat, ci + 1));
        }
        ci += 1;
    }
}

fn push_question_lines(
    lines: &mut Vec<ToneRow>,
    question: &QuestionnaireQuestion,
    field: &QuestionnaireFieldState,
    index: usize,
    active: bool,
    width: usize,
)
    requires
        index < usize::MAX,
        crate::questionnaire::choices_fit(*question),
    ensures
        rows_view(final(lines)@) == rows_view(old(lines)@) + question_rows(
            *question,
            *field,
            index as nat,
            active,
            width as nat,
        ),
{
    let ghost before = rows_view(lines@);
    push_question_header(lines, question, index, active, width);
    let ghost after_header = rows_view(lines@);
    match question.kind {
        QuestionnaireQuestionKind::Text => {
            proof {
                reveal_strlit("  ");
            }
            push_prefixed_input_lines(lines, "  ", field.other_value.as_str(), width, RowTone::Text);
        },
        _ => {
            push_choice_rows(lines, question, field, active, width);
        },
    }
    assert(rows_view(lines@) =~= before + question_rows(*question, *field, index as nat, active, width as nat));
}

fn add_row16(a: u16, b: usize, Ghost(a_full): Ghost<nat>) -> (r: u16)
    requires
        a == row16(a_full),
    ensures
        r == row16(a_full + b as nat),
{
    let r = ((a as usize + b % 65536) % 65536) as u16;
    proof {
        vstd::arithmetic::div_mod::lemma_add_mod_noop(a_full as int, b as int, 65536);
        assert((a_full % 65536) as int == a as int);
    }
    r
}

/// The cursor in an input shown after `prefix`, from the row whose number
/// (as the screen holds it) is `start16`.
fn prefixed_input_cursor(
    value: &str,
    cursor: usize,
    prefix: &str,
    start16: u16,
    width: usize,
    Ghost(start_y): Ghost<nat>,
) -> (p: CursorPosition)
    requires
        text_fits(value@),
        text_fits(prefix@),
        start16 == row16(start_y),
    ensures
        p == prefixed_cursor(value@, cursor as int, prefix@, start_y, width as nat),
{
    let pw = display_width(prefix);
    let iw = input_width_of(prefix, width);
    let position = input_cursor_position(value, cursor, iw);
    CursorPosition { x: position.x.saturating_add(pw as u16), y: position.y.saturating_add(start16) }
}

/// The cursor of a question whose rows start at row `start_y`.
fn questionnaire_question_cursor(
    question: &QuestionnaireQuestion,
    field: &QuestionnaireFieldState,
    start_y: usize,
    width: usize,
) -> (p: CursorPosition)
    requires
        crate::questionnaire::choices_fit(*question),
        text_fits(field.other_value@),
    ensures
        p == question_cursor(*question, *field, start_y as nat, width as nat),
{
    let prefix_height = questionnaire_question_prefix_line_count(question, width);
    let ghost y0: nat = start_y as nat + prefix_height as nat;
    let y16 = add_row16(((start_y % 65536) as u16), prefix_height, Ghost(start_y as nat));
    proof {
        reveal_strlit("  ");
        reveal_strlit("      other: ");
    }
    if let QuestionnaireQuestionKind::Text = question.kind {
        return prefixed_input_cursor(
            field.other_value.as_str(),
            field.other_cursor,
            "  ",
            y16,
            width,
            Ghost(y0),
        );
    }
    let count = choice_count(question);
    let mut ci: usize = 0;
    let mut y = y16;
    let ghost mut yf: nat = y0;
    while ci < count
        invariant
            ci <= count,
            count == count_choices(*question),
            question.kind != QuestionnaireQuestionKind::Text,
            y == row16(yf),
            question_cursor(*question, *field, start_y as nat, width as nat) == choice_cursor_from(
                *question,
                *field,
                width as nat,
                0,
                y0,
            ),
            choice_cursor_from(*question, *field, width as nat, 0, y0) == choice_cursor_from(
                *question,
                *field,
                width as nat,
                ci as int,
                yf,
            ),
            text_fits(field.other_value@),
            text_fits(other_prefix()),
            crate::questionnaire::choices_fit(*question),
        decreases count - ci,
    {
        let marker = questionnaire_selection_marker(question, field, ci);
        let label = questionnaire_choice_label(question, ci);
        if field.choice_cursor == ci {
            if question.allow_other && ci == question.choices.len() && field.text_entry_active(question) {
                let mut row = String::new();
                push_str(&mut row, " > ");
                push_str(&mut row, marker);
                push_str(&mut row, " ");
                push_str(&mut row, label.as_str());
                assert(row@ =~= " > "@ + selection_marker(*question, field.selection@, ci) + " "@ + choice_label(
                    *question,
                    ci,
                ));
                let option_lines = wrapped_line_count(row, width);
                let oy = add_row16(y, option_lines, Ghost(yf));
                return prefixed_input_cursor(
                    field.other_value.as_str(),
                    field.other_cursor,
                    "      other: ",
                    oy,
                    width,
                    Ghost(yf + option_lines as nat),
                );
            }
            return CursorPosition { x: 1, y };
        }
        let mut row = String::new();
        push_str(&mut row, "   ");
        push_str(&mut row, marker);
        push_str(&mut row, " ");
        push_str(&mut row, label.as_str());
        assert(row@ =~= "   "@ + selection_marker(*question, field.selection@, ci) + " "@ + choice_label(*question, ci));
        let rows = wrapped_line_count(row, width);
        y = add_row16(y, rows, Ghost(yf));
        proof {
            yf = yf + rows as nat;
        }
        if question.allow_other && ci == question.choices.len() && questionnaire_other_selected(field) {
            let iw = input_width_of("      other: ", width);
            let other_rows = input_visual_lines(field.other_value.as_str(), iw).len();
            y = add_row16(y, other_rows, Ghost(yf));
            proof {
                yf = yf + other_rows as nat;
            }
        }
        ci += 1;
    }
    CursorPosition { x: 1, y }
}

/// The rows of the questionnaire, each with its tone, and where the cursor
/// stands (in the active question).
pub fn questionnaire_frame(questionnaire: &QuestionnaireComposer, width: usize) -> (r: (Vec<ToneRow>, CursorPosition))
    requires
        composer_ok(*questionnaire),
        answers_fit(*questionnaire),
    ensures
        exists|keys_row: Seq<char>|
            #[trigger] one_line_result(keys_text(), width as nat, keys_row) && rows_view(r.0@) == frame_rows(
                *questionnaire,
                width as nat,
                keys_row,
            ) && r.1 == frame_cursor(*questionnaire, width as nat, keys_row),
{
    let c = questionnaire;
    let mut lines: Vec<ToneRow> = Vec::new();
    match &c.request.title {
        Some(title) => push_wrapped(&mut lines, title.as_str(), width, RowTone::Prompt),
        None => {
            let mut t = String::new();
            push_str(&mut t, "answer ");
            push_str(&mut t, decimal_string(c.request.questions.len() as u64).as_str());
            push_str(&mut t, " question(s)");
            push_wrapped(&mut lines, t.as_str(), width, RowTone::Prompt);
        },
    }
    let ghost after_title = rows_view(lines@);
    if let Some(reason) = &c.request.reason {
        let mut t = String::new();
        push_str(&mut t, "reason: ");
        push_str(&mut t, reason.as_str());
        push_wrapped(&mut lines, t.as_str(), width, RowTone::Dim);
    }
    let ghost after_reason = rows_view(lines@);
    proof {
        reveal_strlit("enter submit · up/down choose · space toggle · tab next · type only for other");
    }
    let keys = truncate_one_line("enter submit · up/down choose · space toggle · tab next · type only for other", width);
    let ghost keys_row = keys@;
    let ghost b = lines@;
    lines.push(ToneRow { text: keys, tone: RowTone::Dim });
    proof {
        assert(rows_view(lines@) =~= rows_view(b).push((keys_row, RowTone::Dim)));
        assert(after_reason =~= after_title + reason_rows(*c, width as nat));
        assert(rows_view(lines@) =~= frame_header(*c, width as nat, keys_row));
    }
    let ghost header = rows_view(lines@);
    let mut cursor = CursorPosition { x: 0, y: 0 };
    let n = c.fields.len();
    let mut index: usize = 0;
    while index < n
        invariant
            n == c.fields@.len(),
            composer_ok(*c),
            answers_fit(*c),
            index <= n,
            header == frame_header(*c, width as nat, keys_row),
            rows_view(lines@) == header + questions_rows(*c, width as nat, index as int),
            index > c.active_index ==> cursor == frame_cursor(*c, width as nat, keys_row),
        decreases n - index,
    {
        let active = c.active_index == index;
        let before = lines.len();
        assert(crate::questionnaire::choices_fit(c.request.questions@[index as int]));
        assert(text_fits(c.fields@[index as int].other_value@));
        push_question_lines(&mut lines, &c.request.questions[index], &c.fields[index], index, active, width);
        if active {
            cursor = questionnaire_question_cursor(&c.request.questions[index], &c.fields[index], before, width);
        }
        index += 1;
    }
    proof {
        assert(one_line_result(keys_text(), width as nat, keys_row));
    }
    (lines, cursor)
}

/// The rows of the questionnaire, each with its tone.
pub fn questionnaire_lines(questionnaire: &QuestionnaireComposer, width: usize) -> (lines: Vec<ToneRow>)
    requires
        composer_ok(*questionnaire),
        answers_fit(*questionnaire),
    ensures
        exists|keys_row: Seq<char>|
            #[trigger] one_line_result(keys_text(), width as nat, keys_row) && rows_view(lines@) == frame_rows(
                *questionnaire,
                width as nat,
                keys_row,
            ),
{
    questionnaire_frame(questionnaire, width).0
}

/// Where the cursor stands in the drawn questionnaire.
pub fn questionnaire_cursor_position(questionnaire: &QuestionnaireComposer, width: usize) -> (p: CursorPosition)
    requires
        composer_ok(*questionnaire),
        answers_fit(*questionnaire),
    ensures
        exists|keys_row: Seq<char>|
            #[trigger] one_line_result(keys_text(), width as nat, keys_row) && p == frame_cursor(
                *questionnaire,
                width as nat,
                keys_row,
            ),
{
    questionnaire_frame(questionnaire, width).1
}

} // verus!
