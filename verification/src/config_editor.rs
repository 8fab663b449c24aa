//! The one-line fields that edit a number or a text setting.
use vstd::prelude::*;
use crate::text::{chars_of, decimal, decimal_string, splice, spliced, string_of};

verus! {

/// Whether an edit keeps `c`: number fields take ASCII digits only, text
/// fields take anything but line breaks.
pub open spec fn keeps(c: char, digits: bool) -> bool {
    if digits {
        '0' <= c && c <= '9'
    } else {
        c != '\n' && c != '\r'
    }
}

/// The characters of `s` that an edit keeps.
pub open spec fn kept(s: Seq<char>, digits: bool) -> Seq<char>
    decreases s.len(),
{
    if s.len() == 0 {
        s
    } else if keeps(s.last(), digits) {
        kept(s.drop_last(), digits).push(s.last())
    } else {
        kept(s.drop_last(), digits)
    }
}

proof fn lemma_kept_len(s: Seq<char>, digits: bool)
    ensures
        kept(s, digits).len() <= s.len(),
    decreases s.len(),
{
    if s.len() > 0 {
        lemma_kept_len(s.drop_last(), digits);
    }
}

/// The characters of `text` that an edit keeps.
fn kept_chars(text: &str, digits: bool) -> (r: Vec<char>)
    ensures
        r@ == kept(text@, digits),
        r@.len() <= text@.len(),
{
    let v = chars_of(text);
    let mut r: Vec<char> = Vec::new();
    let mut i: usize = 0;
    while i < v.len()
        invariant
            i <= v@.len(),
            v@ == text@,
            r@ == kept(v@.take(i as int), digits),
        decreases v.len() - i,
    {
        assert(v@.take(i as int + 1).drop_last() =~= v@.take(i as int));
        let c = v[i];
        let keep = if digits {
            '0' <= c && c <= '9'
        } else {
            c != '\n' && c != '\r'
        };
        if keep {
            r.push(c);
        }
        i += 1;
    }
    assert(v@.take(v@.len() as int) =~= v@);
    proof {
        lemma_kept_len(text@, digits);
    }
    r
}

/// A field's text and its cursor, counted in characters.
pub struct FieldView {
    pub value: Seq<char>,
    pub cursor: int,
}

/// The field after typing `text`: what it keeps goes in at the cursor,
/// which moves past it.
pub open spec fn typed(f: FieldView, text: Seq<char>, digits: bool) -> FieldView {
    let t = kept(text, digits);
    FieldView { value: spliced(f.value, f.cursor, 0, t), cursor: f.cursor + t.len() }
}

/// The field after Backspace: the character before the cursor goes.
pub open spec fn backspaced(f: FieldView) -> FieldView {
    if f.cursor > 0 {
        FieldView { value: spliced(f.value, f.cursor - 1, 1, Seq::empty()), cursor: f.cursor - 1 }
    } else {
        f
    }
}

/// The field after Delete: the character at the cursor goes.
pub open spec fn deleted(f: FieldView) -> FieldView {
    if f.cursor < f.value.len() {
        FieldView { value: spliced(f.value, f.cursor, 1, Seq::empty()), cursor: f.cursor }
    } else {
        f
    }
}

/// Whether the cursor stands within the text.
pub open spec fn field_ok(f: FieldView) -> bool {
    0 <= f.cursor <= f.value.len()
}

/// `value` with `text` typed at `cursor`.
fn type_into(value: &String, cursor: usize, text: &str, digits: bool) -> (r: (String, usize))
    requires
        cursor <= value@.len(),
        value@.len() + text@.len() <= usize::MAX,
    ensures
        (FieldView { value: r.0@, cursor: r.1 as int }) == typed(
            FieldView { value: value@, cursor: cursor as int },
            text@,
            digits,
        ),
{
    let t = kept_chars(text, digits);
    let v = chars_of(value.as_str());
    let edited = splice(&v, cursor, 0, &t);
    (string_of(&edited), cursor + t.len())
}

/// `value` without its character `at`.
fn remove_char(value: &String, at: usize) -> (r: String)
    requires
        at < value@.len(),
    ensures
        r@ == spliced(value@, at as int, 1, Seq::empty()),
{
    let v = chars_of(value.as_str());
    let none: Vec<char> = Vec::new();
    string_of(&splice(&v, at, 1, &none))
}

/// Which number setting a field edits.
#[derive(Clone, Copy, Debug, PartialEq, Eq)]
pub enum ConfigNumberKey {
    MaxOutputBytes,
    MaxToolOutputLines,
    CompactThresholdPercent,
    CompactTargetPercent,
}

/// A field that edits a number setting; it takes ASCII digits only.
#[derive(Clone, Debug)]
pub struct ConfigNumberInput {
    pub key: ConfigNumberKey,
    pub value: String,
    pub cursor: usize,
}

/// Which text setting a field edits.
#[derive(Clone, Copy, Debug, PartialEq, Eq)]
pub enum ConfigTextKey {
    OpenAiSearch,
    Exa,
    Brave,
}

/// A field that edits a text setting (an API key); it takes no line
/// breaks.
#[derive(Clone, Debug)]
pub struct ConfigTextInput {
    pub key: ConfigTextKey,
    pub value: String,
    pub cursor: usize,
}

impl ConfigNumberInput {
    pub open spec fn field(&self) -> FieldView {
        FieldView { value: self.value@, cursor: self.cursor as int }
    }

    /// A field holding `value`, with the cursor at its end.
    pub fn new(key: ConfigNumberKey, value: u64) -> (f: Self)
        ensures
            f.key == key,
            f.value@ == decimal(value as nat),
            f.cursor == f.value@.len(),
    {
        let value = decimal_string(value);
        let cursor = chars_of(value.as_str()).len();
        ConfigNumberInput { key, value, cursor }
    }

    /// Types `text`; only its ASCII digits go in.
    pub fn insert_text(&mut self, text: &str)
        requires
            field_ok(old(self).field()),
            old(self).value@.len() + text@.len() <= usize::MAX,
        ensures
            final(self).key == old(self).key,
            final(self).field() == typed(old(self).field(), text@, true),
    {
        let (value, cursor) = type_into(&self.value, self.cursor, text, true);
        self.value = value;
        self.cursor = cursor;
    }

    /// Types one character; only an ASCII digit goes in.
    pub fn insert_char(&mut self, ch: char)
        requires
            field_ok(old(self).field()),
            old(self).value@.len() < usize::MAX,
        ensures
            final(self).key == old(self).key,
            final(self).field() == typed(old(self).field(), seq![ch], true),
    {
        let mut one: Vec<char> = Vec::new();
        one.push(ch);
        let buf = string_of(&one);
        self.insert_text(buf.as_str());
    }

    /// Deletes the character before the cursor.
    pub fn backspace(&mut self)
        requires
            field_ok(old(self).field()),
        ensures
            final(self).key == old(self).key,
            final(self).field() == backspaced(old(self).field()),
    {
        if self.cursor > 0 {
            self.value = remove_char(&self.value, self.cursor - 1);
            self.cursor = self.cursor - 1;
        }
    }

    /// Deletes the character at the cursor.
    pub fn delete(&mut self)
        requires
            field_ok(old(self).field()),
        ensures
            final(self).key == old(self).key,
            final(self).field() == deleted(old(self).field()),
    {
        if self.cursor < chars_of(self.value.as_str()).len() {
            self.value = remove_char(&self.value, self.cursor);
        }
    }

    /// Moves the cursor one character left, if it can.
    pub fn move_cursor_left(&mut self)
        ensures
            final(self).key == old(self).key,
            final(self).value@ == old(self).value@,
            final(self).cursor == (if old(self).cursor > 0 { old(self).cursor - 1 } else { 0 }),
    {
        if self.cursor > 0 {
            self.cursor = self.cursor - 1;
        }
    }

    /// Moves the cursor one character right, if it can.
    pub fn move_cursor_right(&mut self)
        ensures
            final(self).key == old(self).key,
            final(self).value@ == old(self).value@,
            final(self).cursor == (if old(self).cursor < old(self).value@.len() {
                old(self).cursor + 1
            } else {
                old(self).value@.len() as int
            }),
    {
        let n = chars_of(self.value.as_str()).len();
        if self.cursor < n {
            self.cursor = self.cursor + 1;
        } else {
            self.cursor = n;
        }
    }

    /// Puts the cursor before the first character.
    pub fn move_cursor_home(&mut self)
        ensures
            final(self).key == old(self).key,
            final(self).value@ == old(self).value@,
            final(self).cursor == 0,
    {
        self.cursor = 0;
    }

    /// Puts the cursor after the last character.
    pub fn move_cursor_end(&mut self)
        ensures
            final(self).key == old(self).key,
            final(self).value@ == old(self).value@,
            final(self).cursor == old(self).value@.len(),
    {
        self.cursor = chars_of(self.value.as_str()).len();
    }
}

impl ConfigTextInput {
    pub open spec fn field(&self) -> FieldView {
        FieldView { value: self.value@, cursor: self.cursor as int }
    }

    /// A field holding `value` (empty when unset), with the cursor at its
    /// end.
    pub fn new(key: ConfigTextKey, value: Option<String>) -> (f: Self)
        ensures
            f.key == key,
            f.value@ == (match value {
                Some(v) => v@,
                None => Seq::<char>::empty(),
            }),
            f.cursor == f.value@.len(),
    {
        let value = match value {
            Some(v) => v,
            None => String::new(),
        };
        let cursor = chars_of(value.as_str()).len();
        ConfigTextInput { key, value, cursor }
    }

    /// Types `text` without its line breaks.
    pub fn insert_text(&mut self, text: &str)
        requires
            field_ok(old(self).field()),
            old(self).value@.len() + text@.len() <= usize::MAX,
        ensures
            final(self).key == old(self).key,
            final(self).field() == typed(old(self).field(), text@, false),
    {
        let (value, cursor) = type_into(&self.value, self.cursor, text, false);
        self.value = value;
        self.cursor = cursor;
    }

    /// Types one character, unless it is a line break.
    pub fn insert_char(&mut self, ch: char)
        requires
            field_ok(old(self).field()),
            old(self).value@.len() < usize::MAX,
        ensures
            final(self).key == old(self).key,
            final(self).field() == typed(old(self).field(), seq![ch], false),
    {
        let mut one: Vec<char> = Vec::new();
        one.push(ch);
        let buf = string_of(&one);
        self.insert_text(buf.as_str());
    }

    /// Deletes the character before the cursor.
    pub fn backspace(&mut self)
        requires
            field_ok(old(self).field()),
        ensures
            final(self).key == old(self).key,
            final(self).field() == backspaced(old(self).field()),
    {
        if self.cursor > 0 {
            self.value = remove_char(&self.value, self.cursor - 1);
            self.cursor = self.cursor - 1;
        }
    }

    /// Deletes the character at the cursor.
    pub fn delete(&mut self)
        requires
            field_ok(old(self).field()),
        ensures
            final(self).key == old(self).key,
            final(self).field() == deleted(old(self).field()),
    {
        if self.cursor < chars_of(self.value.as_str()).len() {
            self.value = remove_char(&self.value, self.cursor);
        }
    }

    /// Moves the cursor one character left, if it can.
    pub fn move_cursor_left(&mut self)
        ensures
            final(self).key == old(self).key,
            final(self).value@ == old(self).value@,
            final(self).cursor == (if old(self).cursor > 0 { old(self).cursor - 1 } else { 0 }),
    {
        if self.cursor > 0 {
            self.cursor = self.cursor - 1;
        }
    }

    /// Moves the cursor one character right, if it can.
    pub fn move_cursor_right(&mut self)
        ensures
            final(self).key == old(self).key,
            final(self).value@ == old(self).value@,
            final(self).cursor == (if old(self).cursor < old(self).value@.len() {
                old(self).cursor + 1
            } else {
                old(self).value@.len() as int
            }),
    {
        let n = chars_of(self.value.as_str()).len();
        if self.cursor < n {
            self.cursor = self.cursor + 1;
        } else {
            self.cursor = n;
        }
    }

    /// Puts the cursor before the first character.
    pub fn move_cursor_home(&mut self)
        ensures
            final(self).key == old(self).key,
            final(self).value@ == old(self).value@,
            final(self).cursor == 0,
    {
        self.cursor = 0;
    }

    /// Puts the cursor after the last character.
    pub fn move_cursor_end(&mut self)
        ensures
            final(self).key == old(self).key,
            final(self).value@ == old(self).value@,
            final(self).cursor == old(self).value@.len(),
    {
        self.cursor = chars_of(self.value.as_str()).len();
    }
}

} // verus!
