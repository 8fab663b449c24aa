//! The model pickers: one row per available model, with pinned models
//! badged and the current model selected.
use vstd::prelude::*;
use crate::picker::{PickerAction, PickerBadge, PickerBadgeTone, PickerItem, UiPicker};
use crate::text::{push_str, str_eq};

verus! {

/// A model offered by the picker, in display order, with whether it is
/// pinned to the top of the model pickers.
#[derive(Clone, Debug)]
pub struct ModelEntry {
    pub provider: String,
    pub model: String,
    pub pinned: bool,
}

/// The `provider/model` text that names a model.
pub open spec fn model_value(provider: Seq<char>, model: Seq<char>) -> Seq<char> {
    provider + "/"@ + model
}

/// The help line shown under a model row.
pub open spec fn model_detail(pinned: bool) -> Seq<char> {
    if pinned {
        "Press Ctrl-P to unpin this model."@
    } else {
        "Press Ctrl-P to pin this model to the top of model pickers."@
    }
}

/// Whether `badge` is the tag of a row that is pinned and/or selected.
pub open spec fn model_badge_is(badge: Option<PickerBadge>, pinned: bool, selected: bool) -> bool {
    if pinned && selected {
        badge matches Some(b) && b.text@ == "pinned, selected"@ && b.tone == PickerBadgeTone::Selected
    } else if pinned {
        badge matches Some(b) && b.text@ == "pinned"@ && b.tone == PickerBadgeTone::Favorite
    } else if selected {
        badge matches Some(b) && b.text@ == "selected"@ && b.tone == PickerBadgeTone::Selected
    } else {
        badge is None
    }
}

/// Whether `item` is the row of `entry` when the current model is
/// `provider`/`model`.
pub open spec fn model_row_is(item: PickerItem, entry: ModelEntry, provider: Seq<char>, model: Seq<char>) -> bool {
    let value = model_value(entry.provider@, entry.model@);
    &&& item.label@ == value
    &&& item.value@ == value
    &&& item.detail matches Some(d) && d@ == model_detail(entry.pinned)
    &&& item.preview is None
    &&& model_badge_is(
        item.badge,
        entry.pinned,
        entry.provider@ == provider && entry.model@ == model,
    )
}

/// The row of one model.
fn model_row(entry: &ModelEntry, provider: &str, model: &str) -> (item: PickerItem)
    ensures
        model_row_is(item, *entry, provider@, model@),
{
    let mut value = String::new();
    push_str(&mut value, entry.provider.as_str());
    push_str(&mut value, "/");
    push_str(&mut value, entry.model.as_str());
    let selected = str_eq(entry.provider.as_str(), provider) && str_eq(entry.model.as_str(), model);
    let badge = if entry.pinned && selected {
        Some(PickerBadge { text: String::from_str("pinned, selected"), tone: PickerBadgeTone::Selected })
    } else if entry.pinned {
        Some(PickerBadge { text: String::from_str("pinned"), tone: PickerBadgeTone::Favorite })
    } else if selected {
        Some(PickerBadge { text: String::from_str("selected"), tone: PickerBadgeTone::Selected })
    } else {
        None
    };
    let detail = if entry.pinned {
        String::from_str("Press Ctrl-P to unpin this model.")
    } else {
        String::from_str("Press Ctrl-P to pin this model to the top of model pickers.")
    };
    PickerItem { label: value.clone(), detail: Some(detail), preview: None, badge, value }
}

/// A model picker titled `title` over `entries`, with the row whose value
/// names the current model selected (the first row when none does).
pub fn model_picker_for_current(
    title: &str,
    current_provider: &str,
    current_model: &str,
    entries: Vec<ModelEntry>,
    action: PickerAction,
) -> (p: UiPicker)
    ensures
        p.title@ == title@,
        p.help@
            == "type regex filter, ctrl-p pin/unpin, tab complete, up/down select, enter confirm, esc cancel"@,
        p.filter@ == Seq::<char>::empty(),
        p.action == action,
        p.items@.len() == entries@.len(),
        forall|i: int|
            0 <= i < entries@.len() ==> model_row_is(
                #[trigger] p.items@[i],
                entries@[i],
                current_provider@,
                current_model@,
            ),
        forall|j: int|
            0 <= j < p.selected ==> #[trigger] p.items@[j].value@ != model_value(
                current_provider@,
                current_model@,
            ),
        (p.selected < entries@.len() && p.items@[p.selected as int].value@ == model_value(
            current_provider@,
            current_model@,
        )) || (p.selected == 0 && forall|j: int|
            0 <= j < entries@.len() ==> #[trigger] p.items@[j].value@ != model_value(
                current_provider@,
                current_model@,
            )),
{
    let mut current = String::new();
    push_str(&mut current, current_provider);
    push_str(&mut current, "/");
    push_str(&mut current, current_model);
    let ghost cur = model_value(current_provider@, current_model@);
    let mut items: Vec<PickerItem> = Vec::new();
    let mut found: Option<usize> = None;
    let n = entries.len();
    let mut i: usize = 0;
    while i < n
        invariant
            n == entries@.len(),
            i <= n,
            current@ == cur,
            items@.len() == i,
            forall|k: int|
                0 <= k < i ==> model_row_is(#[trigger] items@[k], entries@[k], current_provider@, current_model@),
            match found {
                Some(f) => f < i && items@[f as int].value@ == cur && forall|j: int|
                    0 <= j < f ==> #[trigger] items@[j].value@ != cur,
                None => forall|j: int| 0 <= j < i ==> #[trigger] items@[j].value@ != cur,
            },
        decreases n - i,
    {
        let item = model_row(&entries[i], current_provider, current_model);
        if found.is_none() && str_eq(item.value.as_str(), current.as_str()) {
            found = Some(i);
        }
        items.push(item);
        i += 1;
    }
    let mut picker = UiPicker::new(
        title,
        "type regex filter, ctrl-p pin/unpin, tab complete, up/down select, enter confirm, esc cancel",
        items,
        action,
    );
    if let Some(index) = found {
        picker.selected = index;
    }
    picker
}

/// The picker of the session model.
pub fn model_picker(current_provider: &str, current_model: &str, entries: Vec<ModelEntry>) -> (p: UiPicker)
    ensures
        p.title@ == "select model"@,
        p.action == PickerAction::SelectModel,
        p.items@.len() == entries@.len(),
        forall|i: int|
            0 <= i < entries@.len() ==> model_row_is(
                #[trigger] p.items@[i],
                entries@[i],
                current_provider@,
                current_model@,
            ),
        (p.selected < entries@.len() && p.items@[p.selected as int].value@ == model_value(
            current_provider@,
            current_model@,
        ) && forall|j: int|
            0 <= j < p.selected ==> #[trigger] p.items@[j].value@ != model_value(
                current_provider@,
                current_model@,
            )) || (p.selected == 0 && forall|j: int|
            0 <= j < entries@.len() ==> #[trigger] p.items@[j].value@ != model_value(
                current_provider@,
                current_model@,
            )),
{
    model_picker_for_current("select model", current_provider, current_model, entries, PickerAction::SelectModel)
}

/// The picker of the model that writes session titles.
pub fn title_model_picker(current_provider: &str, current_model: &str, entries: Vec<ModelEntry>) -> (p: UiPicker)
    ensures
        p.title@ == "select title model"@,
        p.action == PickerAction::SelectTitleModel,
        p.items@.len() == entries@.len(),
        forall|i: int|
            0 <= i < entries@.len() ==> model_row_is(
                #[trigger] p.items@[i],
                entries@[i],
                current_provider@,
                current_model@,
            ),
        (p.selected < entries@.len() && p.items@[p.selected as int].value@ == model_value(
            current_provider@,
            current_model@,
        ) && forall|j: int|
            0 <= j < p.selected ==> #[trigger] p.items@[j].value@ != model_value(
                current_provider@,
                current_model@,
            )) || (p.selected == 0 && forall|j: int|
            0 <= j < entries@.len() ==> #[trigger] p.items@[j].value@ != model_value(
                current_provider@,
                current_model@,
            )),
{
    model_picker_for_current(
        "select title model",
        current_provider,
        current_model,
        entries,
        PickerAction::SelectTitleModel,
    )
}

} // verus!
