//! The questionnaire composer: the questions asked by the model, one
//! answer field per question, and the field being edited.
use vstd::prelude::*;
use crate::composer::{edit_at, next_word_boundary, next_word_end, prev_word_start, previous_word_boundary, word_start};
use crate::questionnaire::{
    answer_list_view, answers_of, choice_count, choices_fit, count_choices, empty_selection, entry_active, highlighted_for_single,
    initial_view, questionnaire_answers, submitted_entry, submitted_questionnaire_entry, toggled, AnswerView,
    FieldSelection, QuestionnaireFieldState, QuestionnaireQuestion, QuestionnaireRequest, QuestionnaireResponse,
    SelectionView,
};
use crate::text::{chars_of, is_white_space, splice, spliced, string_of};

verus! {

/// The questions being answered, their fields, and the active field.
#[derive(Debug)]
pub struct QuestionnaireComposer {
    pub request: QuestionnaireRequest,
    pub fields: Vec<QuestionnaireFieldState>,
    pub active_index: usize,
}

/// A submitted questionnaire: the answers to send back, and how the
/// transcript shows them.
#[derive(Debug)]
pub struct SubmittedQuestionnaire {
    pub response: QuestionnaireResponse,
    pub display: String,
}

/// The composer's invariant: one well-formed field per question, and the
/// active field is one of them.
pub open spec fn composer_ok(c: QuestionnaireComposer) -> bool {
    &&& c.fields@.len() == c.request.questions@.len()
    &&& c.active_index < c.fields@.len()
    &&& forall|k: int| 0 <= k < c.fields@.len() ==> (#[trigger] c.fields@[k]).wf()
    &&& forall|k: int| 0 <= k < c.fields@.len() ==> choices_fit(#[trigger] c.request.questions@[k])
}

/// The field being edited.
pub open spec fn active_field(c: QuestionnaireComposer) -> QuestionnaireFieldState {
    c.fields@[c.active_index as int]
}

/// The question being answered.
pub open spec fn active_question(c: QuestionnaireComposer) -> QuestionnaireQuestion {
    c.request.questions@[c.active_index as int]
}

/// Whether typing goes into the active field's free text.
pub open spec fn typing_active(c: QuestionnaireComposer) -> bool {
    entry_active(active_field(c).selection@, active_field(c).choice_cursor, active_question(c))
}

/// `n` is `o` with only the active field replaced, by `f`.
pub open spec fn active_replaced(o: QuestionnaireComposer, n: QuestionnaireComposer, f: QuestionnaireFieldState) -> bool {
    &&& n.request == o.request
    &&& n.active_index == o.active_index
    &&& n.fields@ == o.fields@.update(o.active_index as int, f)
}

/// The selection and highlight after typing starts in the "other" answer.
pub open spec fn other_activated(sel: SelectionView, cursor: usize, q: QuestionnaireQuestion) -> (SelectionView, usize) {
    match sel {
        SelectionView::Text | SelectionView::Other => (sel, cursor),
        SelectionView::Unselected | SelectionView::Single(_) => (SelectionView::Other, q.choices@.len() as usize),
        SelectionView::Multi(s, _) => (SelectionView::Multi(s, true), q.choices@.len() as usize),
    }
}

/// Whether typing is taken: the free text is active, or the question
/// allows an "other" answer that typing switches to.
pub open spec fn typing_accepted(c: QuestionnaireComposer) -> bool {
    typing_active(c) || active_question(c).allow_other
}

/// Whether the fields of two composers agree except for free text and its
/// cursor in the active field, whose selection and highlight are `sel`
/// and `cursor`.
pub open spec fn text_edited(
    o: QuestionnaireComposer,
    n: QuestionnaireComposer,
    sel: SelectionView,
    cursor: usize,
    value: Seq<char>,
    text_cursor: int,
) -> bool {
    &&& n.request == o.request
    &&& n.active_index == o.active_index
    &&& n.fields@.len() == o.fields@.len()
    &&& forall|k: int| 0 <= k < n.fields@.len() && k != o.active_index ==> n.fields@[k] == o.fields@[k]
    &&& active_field(n).selection@ == sel
    &&& active_field(n).choice_cursor == cursor
    &&& active_field(n).other_value@ == value
    &&& active_field(n).other_cursor == text_cursor
}

/// Taking the active field out and putting a well-formed field back in its
/// place replaces it and keeps the composer's invariant.
proof fn lemma_put_back(o: QuestionnaireComposer, fields: Seq<QuestionnaireFieldState>, f: QuestionnaireFieldState)
    requires
        composer_ok(o),
        fields == o.fields@.remove(o.active_index as int).insert(o.active_index as int, f),
        f.wf(),
    ensures
        fields == o.fields@.update(o.active_index as int, f),
        forall|k: int| 0 <= k < fields.len() ==> (#[trigger] fields[k]).wf(),
{
    assert(fields =~= o.fields@.update(o.active_index as int, f));
    assert forall|k: int| 0 <= k < fields.len() implies (#[trigger] fields[k]).wf() by {
        if k != o.active_index {
            assert(fields[k] == o.fields@[k]);
        }
    }
}

impl QuestionnaireComposer {
    /// A composer for `request`, each field set up from its question's
    /// default, the first field active.
    pub fn new(request: QuestionnaireRequest) -> (c: Self)
        requires
            request.questions@.len() > 0,
            forall|k: int| 0 <= k < request.questions@.len() ==> choices_fit(#[trigger] request.questions@[k]),
        ensures
            c.request == request,
            c.active_index == 0,
            c.fields@.len() == request.questions@.len(),
            forall|k: int|
                0 <= k < c.fields@.len() ==> {
                    let f = #[trigger] c.fields@[k];
                    &&& (f.selection@, f.choice_cursor as int, f.other_value@) == initial_view(
                        request.questions@[k],
                    )
                    &&& f.other_cursor == f.other_value@.len()
                },
            composer_ok(c),
    {
        let mut fields: Vec<QuestionnaireFieldState> = Vec::new();
        let mut i: usize = 0;
        while i < request.questions.len()
            invariant
                i <= request.questions@.len(),
                fields@.len() == i,
                forall|k: int|
                    0 <= k < i ==> {
                        let f = #[trigger] fields@[k];
                        &&& (f.selection@, f.choice_cursor as int, f.other_value@) == initial_view(
                            request.questions@[k],
                        )
                        &&& f.other_cursor == f.other_value@.len()
                        &&& f.wf()
                    },
            decreases request.questions@.len() - i,
        {
            let f = QuestionnaireFieldState::new(&request.questions[i]);
            fields.push(f);
            i += 1;
        }
        QuestionnaireComposer { request, fields, active_index: 0 }
    }

    fn take_active(&mut self) -> (f: QuestionnaireFieldState)
        requires
            old(self).active_index < old(self).fields@.len(),
        ensures
            f == active_field(*old(self)),
            final(self).fields@ == old(self).fields@.remove(old(self).active_index as int),
            final(self).request == old(self).request,
            final(self).active_index == old(self).active_index,
    {
        self.fields.remove(self.active_index)
    }

    fn put_active(&mut self, f: QuestionnaireFieldState)
        requires
            old(self).active_index <= old(self).fields@.len(),
        ensures
            final(self).fields@ == old(self).fields@.insert(old(self).active_index as int, f),
            final(self).request == old(self).request,
            final(self).active_index == old(self).active_index,
    {
        self.fields.insert(self.active_index, f);
    }

    /// Goes to the previous question (staying on the first).
    pub fn move_to_previous_field(&mut self)
        ensures
            final(self).active_index == if old(self).active_index > 0 {
                old(self).active_index - 1
            } else {
                0
            },
            final(self).fields == old(self).fields,
            final(self).request == old(self).request,
            composer_ok(*old(self)) ==> composer_ok(*final(self)),
    {
        self.active_index = self.active_index.saturating_sub(1);
    }

    /// Goes to the next question (staying on the last).
    pub fn move_to_next_field(&mut self)
        requires
            old(self).active_index < usize::MAX,
        ensures
            final(self).active_index == if old(self).active_index + 1 < old(self).fields@.len() - 1 {
                old(self).active_index + 1
            } else if old(self).fields@.len() > 0 {
                old(self).fields@.len() - 1
            } else {
                0
            },
            final(self).fields == old(self).fields,
            final(self).request == old(self).request,
            composer_ok(*old(self)) ==> composer_ok(*final(self)),
    {
        let next = self.active_index + 1;
        let last = self.fields.len().saturating_sub(1);
        self.active_index = if next < last {
            next
        } else {
            last
        };
    }

    /// Whether typing goes into the active field's free text.
    pub fn active_text_entry_active(&self) -> (b: bool)
        requires
            composer_ok(*self),
        ensures
            b == typing_active(*self),
    {
        self.fields[self.active_index].text_entry_active(&self.request.questions[self.active_index])
    }

    /// Whether a character of a fast paste is taken by the composer: always
    /// while typing, else anything but a space when an "other" answer can be
    /// typed.
    pub fn accepts_paste_burst_char(&self, ch: char) -> (b: bool)
        requires
            composer_ok(*self),
        ensures
            b == (typing_active(*self) || (ch != ' ' && active_question(*self).allow_other)),
    {
        self.active_text_entry_active() || (ch != ' ' && self.request.questions[self.active_index].allow_other)
    }

    /// Whether Enter during a fast paste is taken as a line break.
    pub fn accepts_pending_paste_burst_enter(&self) -> (b: bool)
        requires
            composer_ok(*self),
        ensures
            b == typing_accepted(*self),
    {
        self.active_text_entry_active() || self.request.questions[self.active_index].allow_other
    }

    /// Starts typing an "other" answer when the question allows one;
    /// returns whether typing is now taken.
    fn activate_other_for_typing(&mut self) -> (b: bool)
        requires
            composer_ok(*old(self)),
            !typing_active(*old(self)),
        ensures
            b == active_question(*old(self)).allow_other,
            composer_ok(*final(self)),
            b ==> ({
                let (sel, cur) = other_activated(
                    active_field(*old(self)).selection@,
                    active_field(*old(self)).choice_cursor,
                    active_question(*old(self)),
                );
                text_edited(
                    *old(self),
                    *final(self),
                    sel,
                    cur,
                    active_field(*old(self)).other_value@,
                    active_field(*old(self)).other_cursor as int,
                ) && typing_active(*final(self))
            }),
            !b ==> *final(self) == *old(self),
    {
        let i = self.active_index;
        if !self.request.questions[i].allow_other {
            return false;
        }
        let ghost o = *self;
        let n_choices = self.request.questions[i].choices.len();
        let mut f = self.take_active();
        f.selection = match f.selection {
            FieldSelection::Text => FieldSelection::Text,
            FieldSelection::Other => FieldSelection::Other,
            FieldSelection::Unselected => FieldSelection::Other,
            FieldSelection::Single(_) => FieldSelection::Other,
            FieldSelection::Multi { selected, other: _ } => FieldSelection::Multi { selected, other: true },
        };
        f.choice_cursor = n_choices;
        self.put_active(f);
        proof {
            lemma_put_back(o, self.fields@, f);
        }
        true
    }

    /// Types `ch` into the active field, switching to its "other" answer
    /// when needed; returns whether the character was taken.
    pub fn insert_char(&mut self, ch: char) -> (taken: bool)
        requires
            composer_ok(*old(self)),
            active_field(*old(self)).other_cursor < usize::MAX,
        ensures
            composer_ok(*final(self)),
            taken == typing_accepted(*old(self)),
            !taken ==> *final(self) == *old(self),
            taken ==> ({
                let f = active_field(*old(self));
                let (sel, cur) = if typing_active(*old(self)) {
                    (f.selection@, f.choice_cursor)
                } else {
                    other_activated(f.selection@, f.choice_cursor, active_question(*old(self)))
                };
                text_edited(
                    *old(self),
                    *final(self),
                    sel,
                    cur,
                    spliced(f.other_value@, edit_at(f.other_value@, f.other_cursor as int), 0, seq![ch]),
                    f.other_cursor + 1,
                )
            }),
    {
        if !self.active_text_entry_active() && !self.activate_other_for_typing() {
            return false;
        }
        let ghost m = *self;
        let mut f = self.take_active();
        f.insert_char(ch);
        self.put_active(f);
        proof {
            lemma_put_back(m, self.fields@, f);
        }
        true
    }

    /// Types `text` into the active field, switching to its "other" answer
    /// when needed; returns whether the text was taken.
    pub fn insert_text(&mut self, text: &str) -> (taken: bool)
        requires
            composer_ok(*old(self)),
            active_field(*old(self)).other_cursor + text@.len() <= usize::MAX,
        ensures
            composer_ok(*final(self)),
            taken == typing_accepted(*old(self)),
            !taken ==> *final(self) == *old(self),
            taken ==> ({
                let f = active_field(*old(self));
                let (sel, cur) = if typing_active(*old(self)) {
                    (f.selection@, f.choice_cursor)
                } else {
                    other_activated(f.selection@, f.choice_cursor, active_question(*old(self)))
                };
                text_edited(
                    *old(self),
                    *final(self),
                    sel,
                    cur,
                    spliced(f.other_value@, edit_at(f.other_value@, f.other_cursor as int), 0, text@),
                    f.other_cursor + text@.len(),
                )
            }),
    {
        if !self.active_text_entry_active() && !self.activate_other_for_typing() {
            return false;
        }
        let ghost m = *self;
        let mut f = self.take_active();
        f.insert_text(text);
        self.put_active(f);
        proof {
            lemma_put_back(m, self.fields@, f);
        }
        true
    }

    /// Deletes the character before the text cursor, while typing.
    pub fn backspace(&mut self)
        requires
            composer_ok(*old(self)),
        ensures
            composer_ok(*final(self)),
            !typing_active(*old(self)) ==> *final(self) == *old(self),
            typing_active(*old(self)) ==> ({
                let f = active_field(*old(self));
                text_edited(
                    *old(self),
                    *final(self),
                    f.selection@,
                    f.choice_cursor,
                    if f.other_cursor == 0 || f.other_cursor > f.other_value@.len() {
                        f.other_value@
                    } else {
                        spliced(f.other_value@, f.other_cursor - 1, 1, Seq::empty())
                    },
                    if f.other_cursor == 0 {
                        0
                    } else {
                        f.other_cursor - 1
                    },
                )
            }),
    {
        if !self.active_text_entry_active() {
            return;
        }
        let ghost m = *self;
        let mut f = self.take_active();
        f.backspace();
        self.put_active(f);
        proof {
            lemma_put_back(m, self.fields@, f);
        }
    }

    /// Deletes the character at the text cursor, while typing.
    pub fn delete(&mut self)
        requires
            composer_ok(*old(self)),
        ensures
            composer_ok(*final(self)),
            !typing_active(*old(self)) ==> *final(self) == *old(self),
            typing_active(*old(self)) ==> ({
                let f = active_field(*old(self));
                text_edited(
                    *old(self),
                    *final(self),
                    f.selection@,
                    f.choice_cursor,
                    if f.other_cursor >= f.other_value@.len() {
                        f.other_value@
                    } else {
                        spliced(f.other_value@, f.other_cursor as int, 1, Seq::empty())
                    },
                    f.other_cursor as int,
                )
            }),
    {
        if !self.active_text_entry_active() {
            return;
        }
        let ghost m = *self;
        let mut f = self.take_active();
        f.delete();
        self.put_active(f);
        proof {
            lemma_put_back(m, self.fields@, f);
        }
    }

    /// Deletes the word before the text cursor, while typing.
    pub fn delete_previous_word(&mut self)
        requires
            composer_ok(*old(self)),
        ensures
            composer_ok(*final(self)),
            !typing_active(*old(self)) ==> *final(self) == *old(self),
            typing_active(*old(self)) ==> ({
                let f = active_field(*old(self));
                let e = edit_at(f.other_value@, f.other_cursor as int);
                let p = prev_word_start(f.other_value@, e);
                text_edited(
                    *old(self),
                    *final(self),
                    f.selection@,
                    f.choice_cursor,
                    spliced(f.other_value@, p, e - p, Seq::empty()),
                    p,
                )
            }),
    {
        if !self.active_text_entry_active() {
            return;
        }
        let ghost m = *self;
        let mut f = self.take_active();
        let v = chars_of(f.other_value.as_str());
        let end = if f.other_cursor <= v.len() {
            f.other_cursor
        } else {
            v.len()
        };
        let p = previous_word_boundary(f.other_value.as_str(), f.other_cursor);
        proof {
            lemma_prev_word_start_bounds(v@, end as int);
        }
        let empty: Vec<char> = Vec::new();
        let nv = splice(&v, p, end - p, &empty);
        f.other_value = string_of(&nv);
        f.other_cursor = p;
        self.put_active(f);
        proof {
            lemma_put_back(m, self.fields@, f);
        }
    }

    /// Moves the text cursor to the start of the word before it, while
    /// typing.
    pub fn move_text_cursor_previous_word(&mut self)
        requires
            composer_ok(*old(self)),
        ensures
            composer_ok(*final(self)),
            !typing_active(*old(self)) ==> *final(self) == *old(self),
            typing_active(*old(self)) ==> ({
                let f = active_field(*old(self));
                text_edited(
                    *old(self),
                    *final(self),
                    f.selection@,
                    f.choice_cursor,
                    f.other_value@,
                    prev_word_start(f.other_value@, edit_at(f.other_value@, f.other_cursor as int)),
                )
            }),
    {
        if !self.active_text_entry_active() {
            return;
        }
        let ghost m = *self;
        let mut f = self.take_active();
        f.other_cursor = previous_word_boundary(f.other_value.as_str(), f.other_cursor);
        self.put_active(f);
        proof {
            lemma_put_back(m, self.fields@, f);
        }
    }

    /// Moves the text cursor to the end of the word after it, while typing.
    pub fn move_text_cursor_next_word(&mut self)
        requires
            composer_ok(*old(self)),
        ensures
            composer_ok(*final(self)),
            !typing_active(*old(self)) ==> *final(self) == *old(self),
            typing_active(*old(self)) ==> ({
                let f = active_field(*old(self));
                text_edited(
                    *old(self),
                    *final(self),
                    f.selection@,
                    f.choice_cursor,
                    f.other_value@,
                    next_word_end(f.other_value@, edit_at(f.other_value@, f.other_cursor as int)),
                )
            }),
    {
        if !self.active_text_entry_active() {
            return;
        }
        let ghost m = *self;
        let mut f = self.take_active();
        f.other_cursor = next_word_boundary(f.other_value.as_str(), f.other_cursor);
        self.put_active(f);
        proof {
            lemma_put_back(m, self.fields@, f);
        }
    }

    /// Sets the text cursor of the active field.
    fn set_text_cursor(&mut self, cursor: usize)
        requires
            composer_ok(*old(self)),
        ensures
            composer_ok(*final(self)),
            ({
                let f = active_field(*old(self));
                text_edited(*old(self), *final(self), f.selection@, f.choice_cursor, f.other_value@, cursor as int)
            }),
    {
        let ghost m = *self;
        let mut f = self.take_active();
        f.other_cursor = cursor;
        self.put_active(f);
        proof {
            lemma_put_back(m, self.fields@, f);
        }
    }

    /// Moves the highlight up one row of the active question.
    pub fn move_active_choice_previous(&mut self)
        requires
            composer_ok(*old(self)),
        ensures
            composer_ok(*final(self)),
            ({
                let f = active_field(*old(self));
                let q = active_question(*old(self));
                if count_choices(q) == 0 || f.selection@ is Text {
                    *final(self) == *old(self)
                } else {
                    let cursor = if f.choice_cursor > 0 {
                        (f.choice_cursor - 1) as usize
                    } else {
                        0usize
                    };
                    text_edited(
                        *old(self),
                        *final(self),
                        highlighted_for_single(f.selection@, cursor, q),
                        cursor,
                        f.other_value@,
                        f.other_cursor as int,
                    )
                }
            }),
    {
        let ghost m = *self;
        let i = self.active_index;
        if choice_count(&self.request.questions[i]) == 0 {
            return;
        }
        if let FieldSelection::Text = self.fields[i].selection {
            return;
        }
        let mut f = self.take_active();
        f.move_choice_previous(&self.request.questions[i]);
        self.put_active(f);
        proof {
            lemma_put_back(m, self.fields@, f);
        }
    }

    /// Moves the highlight down one row of the active question.
    pub fn move_active_choice_next(&mut self)
        requires
            composer_ok(*old(self)),
            active_field(*old(self)).choice_cursor < usize::MAX,
        ensures
            composer_ok(*final(self)),
            ({
                let f = active_field(*old(self));
                let q = active_question(*old(self));
                if count_choices(q) == 0 || f.selection@ is Text {
                    *final(self) == *old(self)
                } else {
                    let cursor = if f.choice_cursor + 1 < count_choices(q) - 1 {
                        (f.choice_cursor + 1) as usize
                    } else {
                        (count_choices(q) - 1) as usize
                    };
                    text_edited(
                        *old(self),
                        *final(self),
                        highlighted_for_single(f.selection@, cursor, q),
                        cursor,
                        f.other_value@,
                        f.other_cursor as int,
                    )
                }
            }),
    {
        let ghost m = *self;
        let i = self.active_index;
        if choice_count(&self.request.questions[i]) == 0 {
            return;
        }
        if let FieldSelection::Text = self.fields[i].selection {
            return;
        }
        let mut f = self.take_active();
        f.move_choice_next(&self.request.questions[i]);
        self.put_active(f);
        proof {
            lemma_put_back(m, self.fields@, f);
        }
    }

    /// Picks or ticks the highlighted row of the active question.
    pub fn toggle_active_choice(&mut self)
        requires
            composer_ok(*old(self)),
        ensures
            composer_ok(*final(self)),
            ({
                let f = active_field(*old(self));
                text_edited(
                    *old(self),
                    *final(self),
                    toggled(f.selection@, f.choice_cursor, active_question(*old(self))),
                    f.choice_cursor,
                    f.other_value@,
                    f.other_cursor as int,
                )
            }),
    {
        let ghost m = *self;
        let i = self.active_index;
        let mut f = self.take_active();
        f.toggle_highlighted(&self.request.questions[i]);
        self.put_active(f);
        proof {
            lemma_put_back(m, self.fields@, f);
        }
    }

    /// Clears the answer of the active question.
    pub fn clear_active_answer(&mut self)
        requires
            composer_ok(*old(self)),
        ensures
            composer_ok(*final(self)),
            text_edited(
                *old(self),
                *final(self),
                empty_selection(active_question(*old(self)).kind),
                0,
                Seq::empty(),
                0,
            ),
    {
        let ghost m = *self;
        let i = self.active_index;
        let _previous = self.take_active();
        let f = QuestionnaireFieldState::empty(&self.request.questions[i]);
        self.put_active(f);
        proof {
            lemma_put_back(m, self.fields@, f);
        }
    }

    /// Number of characters of the active field's free text.
    pub fn active_char_len(&self) -> (n: usize)
        requires
            composer_ok(*self),
        ensures
            n == active_field(*self).other_value@.len(),
    {
        self.fields[self.active_index].char_len()
    }

    /// Left: moves the text cursor while typing, else the highlight up.
    pub fn move_cursor_left(&mut self)
        requires
            composer_ok(*old(self)),
        ensures
            composer_ok(*final(self)),
            typing_active(*old(self)) ==> ({
                let f = active_field(*old(self));
                text_edited(
                    *old(self),
                    *final(self),
                    f.selection@,
                    f.choice_cursor,
                    f.other_value@,
                    if f.other_cursor > 0 {
                        f.other_cursor - 1
                    } else {
                        0
                    },
                )
            }),
            !typing_active(*old(self)) ==> ({
                let f = active_field(*old(self));
                let q = active_question(*old(self));
                if count_choices(q) == 0 || f.selection@ is Text {
                    *final(self) == *old(self)
                } else {
                    let cursor = if f.choice_cursor > 0 {
                        (f.choice_cursor - 1) as usize
                    } else {
                        0usize
                    };
                    text_edited(
                        *old(self),
                        *final(self),
                        highlighted_for_single(f.selection@, cursor, q),
                        cursor,
                        f.other_value@,
                        f.other_cursor as int,
                    )
                }
            }),
    {
        if self.active_text_entry_active() {
            let c = self.fields[self.active_index].other_cursor;
            self.set_text_cursor(c.saturating_sub(1));
        } else {
            self.move_active_choice_previous();
        }
    }

    /// Right: moves the text cursor while typing (up to the end of the
    /// text), else the highlight down.
    pub fn move_cursor_right(&mut self)
        requires
            composer_ok(*old(self)),
            active_field(*old(self)).other_cursor < usize::MAX,
            active_field(*old(self)).choice_cursor < usize::MAX,
        ensures
            composer_ok(*final(self)),
            typing_active(*old(self)) ==> ({
                let f = active_field(*old(self));
                text_edited(
                    *old(self),
                    *final(self),
                    f.selection@,
                    f.choice_cursor,
                    f.other_value@,
                    if f.other_cursor + 1 < f.other_value@.len() {
                        f.other_cursor + 1
                    } else {
                        f.other_value@.len() as int
                    },
                )
            }),
            !typing_active(*old(self)) ==> ({
                let f = active_field(*old(self));
                let q = active_question(*old(self));
                if count_choices(q) == 0 || f.selection@ is Text {
                    *final(self) == *old(self)
                } else {
                    let cursor = if f.choice_cursor + 1 < count_choices(q) - 1 {
                        (f.choice_cursor + 1) as usize
                    } else {
                        (count_choices(q) - 1) as usize
                    };
                    text_edited(
                        *old(self),
                        *final(self),
                        highlighted_for_single(f.selection@, cursor, q),
                        cursor,
                        f.other_value@,
                        f.other_cursor as int,
                    )
                }
            }),
    {
        if self.active_text_entry_active() {
            let len = self.active_char_len();
            let c = self.fields[self.active_index].other_cursor + 1;
            self.set_text_cursor(
                if c < len {
                    c
                } else {
                    len
                },
            );
        } else {
            self.move_active_choice_next();
        }
    }

    /// Home: the text cursor to the start, while typing.
    pub fn move_cursor_home(&mut self)
        requires
            composer_ok(*old(self)),
        ensures
            composer_ok(*final(self)),
            !typing_active(*old(self)) ==> *final(self) == *old(self),
            typing_active(*old(self)) ==> ({
                let f = active_field(*old(self));
                text_edited(*old(self), *final(self), f.selection@, f.choice_cursor, f.other_value@, 0)
            }),
    {
        if self.active_text_entry_active() {
            self.set_text_cursor(0);
        }
    }

    /// End: the text cursor to the end, while typing.
    pub fn move_cursor_end(&mut self)
        requires
            composer_ok(*old(self)),
        ensures
            composer_ok(*final(self)),
            !typing_active(*old(self)) ==> *final(self) == *old(self),
            typing_active(*old(self)) ==> ({
                let f = active_field(*old(self));
                text_edited(
                    *old(self),
                    *final(self),
                    f.selection@,
                    f.choice_cursor,
                    f.other_value@,
                    f.other_value@.len() as int,
                )
            }),
    {
        if self.active_text_entry_active() {
            let len = self.active_char_len();
            self.set_text_cursor(len);
        }
    }

    /// The answers to send back and their transcript entry, or why a
    /// question cannot be answered yet.
    pub fn submit(&self) -> (r: Result<SubmittedQuestionnaire, String>)
        requires
            composer_ok(*self),
        ensures
            match r {
                Ok(s) => {
                    &&& answers_of(self.request.questions@, self.fields@, self.fields@.len() as int) == Ok::<
                        Seq<(Seq<char>, AnswerView)>,
                        Seq<char>,
                    >(answer_list_view(s.response.answers@))
                    &&& s.display@ == submitted_entry(self.request, s.response.answers@)
                },
                Err(e) => answers_of(self.request.questions@, self.fields@, self.fields@.len() as int) == Err::<
                    Seq<(Seq<char>, AnswerView)>,
                    Seq<char>,
                >(e@),
            },
    {
        let answers = match questionnaire_answers(&self.request, &self.fields) {
            Ok(a) => a,
            Err(e) => {
                return Err(e);
            },
        };
        let response = QuestionnaireResponse { answers };
        let display = submitted_questionnaire_entry(&self.request, &response);
        Ok(SubmittedQuestionnaire { response, display })
    }
}

proof fn lemma_prev_word_start_bounds(s: Seq<char>, i: int)
    requires
        0 <= i <= s.len(),
    ensures
        0 <= prev_word_start(s, i) <= i,
    decreases i,
{
    if i > 0 {
        if is_white_space(s[i - 1]) {
            lemma_prev_word_start_bounds(s, i - 1);
        } else {
            lemma_word_start_bounds(s, i);
        }
    }
}

proof fn lemma_word_start_bounds(s: Seq<char>, i: int)
    requires
        0 <= i <= s.len(),
    ensures
        0 <= word_start(s, i) <= i,
    decreases i,
{
    if i > 0 && !is_white_space(s[i - 1]) {
        lemma_word_start_bounds(s, i - 1);
    }
}

} // verus!
