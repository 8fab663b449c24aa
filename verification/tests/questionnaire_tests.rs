use rho_tui::questionnaire_render::{questionnaire_cursor_position, questionnaire_frame, questionnaire_lines, RowTone};
use rho_tui::questionnaire::{
    insert_sorted_vec, normalize_questionnaire_answer, normalize_text_answer, questionnaire_answer_display,
    questionnaire_answer_hint, without_value_vec, AnswerValue, FieldSelection, JsonValue, QuestionnaireFieldState,
    QuestionnaireQuestion, QuestionnaireQuestionKind,
};

fn question(kind: QuestionnaireQuestionKind, choices: &[&str], required: bool) -> QuestionnaireQuestion {
    QuestionnaireQuestion {
        id: "q".into(),
        question: "Which?".into(),
        help: None,
        kind,
        choices: choices.iter().map(|c| c.to_string()).collect(),
        allow_other: true,
        required,
        default: None,
    }
}

#[test]
fn text_answers_are_trimmed_and_required_ones_refused_when_empty() {
    let q = question(QuestionnaireQuestionKind::Text, &[], true);
    assert_eq!(normalize_text_answer(&q, "  hi  "), Ok("hi".to_string()));
    assert_eq!(normalize_text_answer(&q, "   "), Err("answer cannot be empty".to_string()));
    let optional = question(QuestionnaireQuestionKind::Text, &[], false);
    assert_eq!(normalize_text_answer(&optional, "   "), Ok(String::new()));
}

#[test]
fn sorted_selection_sets_stay_sorted_and_unique() {
    let v = insert_sorted_vec(&vec![1, 4, 7], 5);
    assert_eq!(v, vec![1, 4, 5, 7]);
    assert_eq!(insert_sorted_vec(&v, 5), v);
    assert_eq!(without_value_vec(&v, 4), vec![1, 5, 7]);
    assert_eq!(without_value_vec(&v, 9), v);
}

#[test]
fn multi_select_answers_list_the_ticked_choices() {
    let q = question(QuestionnaireQuestionKind::MultiSelect, &["red", "green", "blue"], true);
    let field = QuestionnaireFieldState {
        selection: FieldSelection::Multi {
            selected: vec![0, 2],
            other: true,
        },
        choice_cursor: 0,
        other_value: " teal ".into(),
        other_cursor: 0,
    };
    match normalize_questionnaire_answer(&q, &field) {
        Ok(AnswerValue::List(items)) => assert_eq!(items, vec!["red", "blue", "teal"]),
        other => panic!("unexpected answer {other:?}"),
    }
    let none = QuestionnaireFieldState {
        selection: FieldSelection::Multi {
            selected: vec![],
            other: false,
        },
        choice_cursor: 0,
        other_value: String::new(),
        other_cursor: 0,
    };
    assert_eq!(
        normalize_questionnaire_answer(&q, &none).unwrap_err(),
        "select at least one answer"
    );
}

#[test]
fn confirm_answers_read_yes_or_no() {
    let q = question(QuestionnaireQuestionKind::Confirm, &[], true);
    let yes = QuestionnaireFieldState {
        selection: FieldSelection::Single(0),
        choice_cursor: 0,
        other_value: String::new(),
        other_cursor: 0,
    };
    match normalize_questionnaire_answer(&q, &yes) {
        Ok(AnswerValue::Text(t)) => assert_eq!(t, "yes"),
        other => panic!("unexpected answer {other:?}"),
    }
}

#[test]
fn answer_display_joins_lists() {
    assert_eq!(questionnaire_answer_display(&AnswerValue::List(vec!["a".into(), "b".into()])), "a, b");
    assert_eq!(questionnaire_answer_display(&AnswerValue::Text("x".into())), "x");
}

#[test]
fn hints_name_the_kind_other_and_default() {
    let mut q = question(QuestionnaireQuestionKind::Choice, &["a", "b"], true);
    q.default = Some(JsonValue::Text("a".into()));
    assert_eq!(questionnaire_answer_hint(&q), "select one · other available · default: a");
}

fn request(questions: Vec<QuestionnaireQuestion>) -> rho_tui::questionnaire::QuestionnaireRequest {
    rho_tui::questionnaire::QuestionnaireRequest {
        title: Some("Setup".into()),
        reason: None,
        questions,
    }
}

#[test]
fn typing_on_a_choice_switches_to_the_other_answer() {
    let mut composer = rho_tui::questionnaire_composer::QuestionnaireComposer::new(request(vec![question(
        QuestionnaireQuestionKind::Choice,
        &["red", "green"],
        true,
    )]));
    assert!(!composer.active_text_entry_active());
    assert!(!composer.accepts_paste_burst_char(' '));
    assert!(composer.accepts_paste_burst_char('x'));
    assert!(composer.insert_char('t'));
    assert!(composer.insert_text("eal"));
    assert!(composer.active_text_entry_active());
    let field = &composer.fields[0];
    assert!(matches!(field.selection, FieldSelection::Other));
    assert_eq!(field.choice_cursor, 2);
    assert_eq!(field.other_value, "teal");
    assert_eq!(field.other_cursor, 4);
    let submitted = composer.submit().unwrap();
    assert_eq!(submitted.display, "teal");
}

#[test]
fn text_fields_edit_at_the_cursor() {
    let mut confirm = question(QuestionnaireQuestionKind::Confirm, &[], true);
    confirm.allow_other = false;
    let mut composer = rho_tui::questionnaire_composer::QuestionnaireComposer::new(request(vec![
        question(QuestionnaireQuestionKind::Text, &[], true),
        confirm,
    ]));
    assert!(composer.insert_text("hello big world"));
    composer.delete_previous_word();
    assert_eq!(composer.fields[0].other_value, "hello big ");
    composer.move_cursor_home();
    composer.move_cursor_right();
    composer.delete();
    assert_eq!(composer.fields[0].other_value, "hllo big ");
    composer.backspace();
    assert_eq!(composer.fields[0].other_value, "llo big ");
    composer.move_text_cursor_next_word();
    assert_eq!(composer.fields[0].other_cursor, 3);
    composer.move_cursor_end();
    assert_eq!(composer.active_char_len(), 8);
    assert_eq!(composer.fields[0].other_cursor, 8);

    composer.move_to_next_field();
    composer.move_to_next_field();
    assert_eq!(composer.active_index, 1);
    assert!(!composer.insert_char('x'));
    composer.move_to_previous_field();
    composer.move_to_previous_field();
    assert_eq!(composer.active_index, 0);
}

#[test]
fn cleared_required_answer_is_refused_on_submit() {
    let mut composer = rho_tui::questionnaire_composer::QuestionnaireComposer::new(request(vec![question(
        QuestionnaireQuestionKind::Text,
        &[],
        true,
    )]));
    assert!(composer.insert_text("draft"));
    composer.clear_active_answer();
    assert_eq!(composer.fields[0].other_value, "");
    assert!(composer.submit().is_err());
}

#[test]
fn choice_highlight_moves_and_toggles() {
    let mut composer = rho_tui::questionnaire_composer::QuestionnaireComposer::new(request(vec![question(
        QuestionnaireQuestionKind::MultiSelect,
        &["red", "green", "blue"],
        false,
    )]));
    composer.move_cursor_right();
    composer.move_active_choice_next();
    composer.toggle_active_choice();
    composer.move_cursor_left();
    composer.toggle_active_choice();
    match &composer.fields[0].selection {
        FieldSelection::Multi { selected, other } => {
            assert_eq!(selected, &vec![1, 2]);
            assert!(!other);
        }
        _ => panic!("expected a multi-select"),
    }
}

#[test]
fn questionnaire_frame_lists_rows_with_tones_and_cursor() {
    let composer = rho_tui::questionnaire_composer::QuestionnaireComposer::new(request(vec![question(
        QuestionnaireQuestionKind::Choice,
        &["red", "green"],
        true,
    )]));
    let (rows, cursor) = questionnaire_frame(&composer, 80);
    let texts: Vec<&str> = rows.iter().map(|row| row.text.as_str()).collect();
    assert_eq!(
        texts,
        vec![
            "Setup",
            "enter submit · up/down choose · space toggle · tab next · type only for other",
            "> 1. Which?",
            "  select one · other available",
            " > ( ) red",
            "   ( ) green",
            "   ( ) Other",
        ]
    );
    assert_eq!(rows[0].tone, RowTone::Prompt);
    assert_eq!(rows[1].tone, RowTone::Dim);
    assert_eq!(rows[4].tone, RowTone::Prompt);
    assert_eq!(rows[5].tone, RowTone::Text);
    assert_eq!((cursor.x, cursor.y), (1, 4));
    assert_eq!(questionnaire_lines(&composer, 80).len(), 7);
    assert_eq!(questionnaire_cursor_position(&composer, 80), cursor);
}

#[test]
fn questionnaire_cursor_follows_the_other_input() {
    let mut composer = rho_tui::questionnaire_composer::QuestionnaireComposer::new(request(vec![question(
        QuestionnaireQuestionKind::Choice,
        &["red", "green"],
        true,
    )]));
    assert!(composer.insert_text("teal"));
    let (rows, cursor) = questionnaire_frame(&composer, 80);
    assert_eq!(rows[6].text, " > (x) Other");
    assert_eq!(rows[7].text, "      other: teal");
    assert_eq!((cursor.x, cursor.y), (17, 7));
}

#[test]
fn toggling_a_row_twice_restores_the_selection() {
    let q = question(QuestionnaireQuestionKind::MultiSelect, &["red", "green", "blue"], true);
    for cursor in 0..4 {
        let mut field = QuestionnaireFieldState {
            selection: FieldSelection::Multi { selected: vec![0, 2], other: false },
            choice_cursor: cursor,
            other_value: String::new(),
            other_cursor: 0,
        };
        field.toggle_highlighted(&q);
        let once = match &field.selection {
            FieldSelection::Multi { selected, other } => (selected.clone(), *other),
            _ => panic!("multi-select stays multi-select"),
        };
        assert_ne!(once, (vec![0, 2], false));
        field.toggle_highlighted(&q);
        match &field.selection {
            FieldSelection::Multi { selected, other } => assert_eq!((selected.clone(), *other), (vec![0, 2], false)),
            _ => panic!("multi-select stays multi-select"),
        }
    }
}
