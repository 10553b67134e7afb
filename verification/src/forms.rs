//! The forms through which entries and collections are written, and the
//! messages that a form with a fault gets back.

use crate::models::Interval;
use crate::text::{has_prefix, is_blank, optional_text, starts_with, str_eq, str_is_blank};
use vstd::prelude::*;

verus! {

/// The messages for the fields of a form that are at fault, by field name.
/// A field has at most one message: a later one takes the place of an
/// earlier one.
#[derive(Debug)]
pub struct FormErrors {
    entries: Vec<(String, String)>,
}

/// The messages that a list of pairs of field and message leaves, a later
/// pair for a field taking the place of an earlier one.
pub open spec fn messages_of(entries: Seq<(String, String)>) -> Map<Seq<char>, Seq<char>>
    decreases entries.len(),
{
    if entries.len() == 0 {
        Map::empty()
    } else {
        messages_of(entries.drop_last()).insert(entries.last().0@, entries.last().1@)
    }
}

/// A field has a message exactly where some pair names it.
proof fn lemma_messages_domain(entries: Seq<(String, String)>, field: Seq<char>)
    ensures
        messages_of(entries).dom().contains(field) <==> exists|i: int|
            0 <= i < entries.len() && (#[trigger] entries[i]).0@ == field,
    decreases entries.len(),
{
    if entries.len() > 0 {
        let rest = entries.drop_last();
        lemma_messages_domain(rest, field);
        if messages_of(entries).dom().contains(field) {
            if entries.last().0@ == field {
                assert(entries[entries.len() - 1].0@ == field);
            } else {
                let i = choose|i: int| 0 <= i < rest.len() && (#[trigger] rest[i]).0@ == field;
                assert(entries[i].0@ == field);
            }
        } else {
            assert forall|i: int| 0 <= i < entries.len() implies (#[trigger] entries[i]).0@
                != field by {
                if i < rest.len() {
                    assert(rest[i].0@ != field);
                }
            }
        }
    }
}

impl View for FormErrors {
    type V = Map<Seq<char>, Seq<char>>;

    closed spec fn view(&self) -> Map<Seq<char>, Seq<char>> {
        messages_of(self.entries@)
    }
}

impl FormErrors {
    /// The message for `field`, if it has one.
    pub open spec fn message(self, field: Seq<char>) -> Option<Seq<char>> {
        if self@.dom().contains(field) {
            Some(self@[field])
        } else {
            None
        }
    }

    /// No messages.
    pub fn new() -> (errors: FormErrors)
        ensures
            errors@ == Map::<Seq<char>, Seq<char>>::empty(),
    {
        FormErrors { entries: Vec::new() }
    }

    /// Sets the message for `field`.
    pub fn insert(&mut self, field: &str, message: &str)
        ensures
            final(self)@ == old(self)@.insert(field@, message@),
    {
        let pair = (String::from_str(field), String::from_str(message));
        self.entries.push(pair);
        assert(self.entries@.drop_last() =~= old(self).entries@);
    }

    /// Whether no field has a message.
    pub fn is_empty(&self) -> (empty: bool)
        ensures
            empty <==> self@ == Map::<Seq<char>, Seq<char>>::empty(),
            empty <==> self@.dom().is_empty(),
    {
        proof {
            if self.entries@.len() > 0 {
                assert(self@.dom().contains(self.entries@.last().0@));
            } else {
                assert(self@ =~= Map::<Seq<char>, Seq<char>>::empty());
            }
        }
        self.entries.len() == 0
    }

    /// Whether `field` has a message.
    pub fn contains_key(&self, field: &str) -> (found: bool)
        ensures
            found == self@.dom().contains(field@),
    {
        let mut i: usize = 0;
        while i < self.entries.len()
            invariant
                i <= self.entries.len(),
                forall|j: int| 0 <= j < i ==> (#[trigger] self.entries@[j]).0@ != field@,
            decreases self.entries.len() - i,
        {
            if str_eq(self.entries[i].0.as_str(), field) {
                proof {
                    lemma_messages_domain(self.entries@, field@);
                }
                return true;
            }
            i += 1;
        }
        proof {
            lemma_messages_domain(self.entries@, field@);
        }
        false
    }

    /// The message for `field`, if it has one.
    pub fn get(&self, field: &str) -> (found: Option<String>)
        ensures
            optional_text(found) == self.message(field@),
    {
        let mut i: usize = self.entries.len();
        assert(self.entries@.take(i as int) =~= self.entries@);
        while i > 0
            invariant
                i <= self.entries.len(),
                self.message(field@) == (if messages_of(self.entries@.take(i as int)).dom().contains(
                    field@,
                ) {
                    Some(messages_of(self.entries@.take(i as int))[field@])
                } else {
                    None
                }),
            decreases i,
        {
            assert(self.entries@.take(i as int).drop_last() =~= self.entries@.take(i - 1));
            if str_eq(self.entries[i - 1].0.as_str(), field) {
                return Some(self.entries[i - 1].1.clone());
            }
            i -= 1;
        }
        None
    }
}

/// The length of a text in bytes, written in UTF-8.
pub open spec fn utf8_len(s: Seq<char>) -> nat {
    vstd::utf8::encode_utf8(s).len()
}

/// What a user fills in to save or change an entry.
#[derive(Debug)]
pub struct EntryForm {
    pub url: String,
    pub title: String,
    pub description: Option<String>,
    pub duration: i64,
    pub interval: Interval,
    /// Tag names, separated by commas.
    pub tags: Option<String>,
    /// The collection to share the entry through; empty for none.
    pub collection_id: Option<String>,
}

/// The fault in a duration, if any: it must be at least 1.
pub open spec fn duration_error(duration: i64) -> Option<Seq<char>> {
    if duration < 1 {
        Some("Duration must be at least 1"@)
    } else {
        None
    }
}

/// The fault in a URL, if any: one that is not empty must begin with
/// `http://` or `https://`.
pub open spec fn url_error(url: Seq<char>) -> Option<Seq<char>> {
    if url.len() > 0 && !has_prefix(url, "http://"@) && !has_prefix(url, "https://"@) {
        Some("URL must start with http:// or https://"@)
    } else {
        None
    }
}

/// The fault in a title, if any: it may take at most 500 bytes, and must
/// hold something other than white space.
pub open spec fn title_error(title: Seq<char>) -> Option<Seq<char>> {
    if utf8_len(title) > 500 {
        Some("Title must be under 500 characters"@)
    } else if is_blank(title) {
        Some("Title is required"@)
    } else {
        None
    }
}

/// The fault in a description, if any: it may take at most 5000 bytes.
pub open spec fn description_error(description: Option<String>) -> Option<Seq<char>> {
    match description {
        Some(text) if utf8_len(text@) > 5000 => Some(
            "Description must be under 5000 characters"@,
        ),
        _ => None,
    }
}

/// The four field names of an entry form are different texts.
proof fn lemma_entry_fields_differ()
    ensures
        "duration"@ != "url"@,
        "duration"@ != "title"@,
        "duration"@ != "description"@,
        "url"@ != "title"@,
        "url"@ != "description"@,
        "title"@ != "description"@,
{
    reveal_strlit("duration");
    reveal_strlit("url");
    reveal_strlit("title");
    reveal_strlit("description");
    assert("duration"@.len() == 8 && "url"@.len() == 3 && "title"@.len() == 5 && "description"@.len()
        == 11);
}

/// Checks an entry form. The result has a message for exactly the fields
/// at fault: `duration`, `url`, `title`, `description`.
pub fn validate_entry_form(form: &EntryForm) -> (errors: FormErrors)
    ensures
        errors.message("duration"@) == duration_error(form.duration),
        errors.message("url"@) == url_error(form.url@),
        errors.message("title"@) == title_error(form.title@),
        errors.message("description"@) == description_error(form.description),
        forall|field: Seq<char>| #[trigger]
            errors@.dom().contains(field) ==> field == "duration"@ || field == "url"@ || field
                == "title"@ || field == "description"@,
        errors@.dom().is_empty() <==> entry_form_is_valid(*form),
{
    proof {
        lemma_entry_fields_differ();
    }
    let mut errors = FormErrors::new();
    if form.duration < 1 {
        errors.insert("duration", "Duration must be at least 1");
    }
    if !form.url.as_str().is_empty() {
        if !starts_with(form.url.as_str(), "http://") && !starts_with(
            form.url.as_str(),
            "https://",
        ) {
            errors.insert("url", "URL must start with http:// or https://");
        }
    }
    if str_is_blank(form.title.as_str()) {
        errors.insert("title", "Title is required");
    }
    if form.title.as_str().as_bytes().len() > 500 {
        errors.insert("title", "Title must be under 500 characters");
    }
    match &form.description {
        Some(text) => {
            if text.as_str().as_bytes().len() > 5000 {
                errors.insert("description", "Description must be under 5000 characters");
            }
        },
        None => {},
    }
    errors
}

/// Whether an entry form is free of faults.
pub open spec fn entry_form_is_valid(form: EntryForm) -> bool {
    &&& duration_error(form.duration) is None
    &&& url_error(form.url@) is None
    &&& title_error(form.title@) is None
    &&& description_error(form.description) is None
}

impl EntryForm {
    /// The collection that the form names, where it names one: an empty
    /// text stands for none.
    pub open spec fn collection_choice(self) -> Option<String> {
        match self.collection_id {
            Some(text) if text@.len() > 0 => Some(text),
            _ => None,
        }
    }

    /// The collection that the form names, where it names one: an empty
    /// text stands for none.
    pub fn chosen_collection(&self) -> (id: Option<String>)
        ensures
            id == self.collection_choice(),
    {
        match &self.collection_id {
            Some(text) => {
                if text.as_str().is_empty() {
                    None
                } else {
                    Some(text.clone())
                }
            },
            None => None,
        }
    }
}

/// What a user fills in to create or rename a collection.
#[derive(Debug)]
pub struct CollectionForm {
    pub name: String,
}

/// What a user fills in to join a collection.
#[derive(Debug)]
pub struct JoinForm {
    pub invite_code: String,
}

/// What a user fills in to log in.
#[derive(Debug)]
pub struct LoginForm {
    pub invite_code: String,
}

/// The fault in a collection's name, if any: it may take at most 100
/// bytes, and must hold something other than white space.
pub open spec fn name_error(name: Seq<char>) -> Option<Seq<char>> {
    if utf8_len(name) > 100 {
        Some("Name must be under 100 characters"@)
    } else if is_blank(name) {
        Some("Name is required"@)
    } else {
        None
    }
}

/// Checks a collection form. The result has a message for `name` where the
/// name is at fault, and for no other field.
pub fn validate_collection_form(form: &CollectionForm) -> (errors: FormErrors)
    ensures
        errors.message("name"@) == name_error(form.name@),
        forall|field: Seq<char>| #[trigger] errors@.dom().contains(field) ==> field == "name"@,
        errors@.dom().is_empty() <==> name_error(form.name@) is None,
{
    let mut errors = FormErrors::new();
    if str_is_blank(form.name.as_str()) {
        errors.insert("name", "Name is required");
    }
    if form.name.as_str().as_bytes().len() > 100 {
        errors.insert("name", "Name must be under 100 characters");
    }
    errors
}

} // verus!
