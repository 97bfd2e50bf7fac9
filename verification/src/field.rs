//! Form-field text plumbing: which ids describe a control, how attributes set by
//! the caller are read, how class lists are extended, and the shown/hidden state
//! of a password field.

use vstd::prelude::*;
use crate::text::{
    chars_of, decimal, push_char, push_decimal, push_str, trim_spec, trim_start_index,
    trim_end_index, string_of_range,
};

verus! {

broadcast use vstd::string::group_string_axioms;

/// `ids` joined with single spaces.
pub open spec fn join_space(ids: Seq<Seq<char>>) -> Seq<char>
    decreases ids.len(),
{
    if ids.len() == 0 {
        Seq::empty()
    } else if ids.len() == 1 {
        ids[0]
    } else {
        join_space(ids.drop_last()) + seq![' '] + ids.last()
    }
}

/// The one-element list of `o`'s content, or the empty list.
pub open spec fn opt_list(o: Option<Seq<char>>) -> Seq<Seq<char>> {
    match o {
        Some(s) => seq![s],
        None => Seq::empty(),
    }
}

/// The view of an optional string.
pub open spec fn opt_str(o: Option<&str>) -> Option<Seq<char>> {
    match o {
        Some(s) => Some(s@),
        None => None,
    }
}

/// The view of an optional owned string.
pub open spec fn opt_string(o: Option<String>) -> Option<Seq<char>> {
    match o {
        Some(s) => Some(s@),
        None => None,
    }
}

/// The ids that describe a control, in order: the caller's own `aria-describedby`
/// when it is not empty, then the description's id, then the error's id.
pub open spec fn describing_ids(
    description_id: Option<Seq<char>>,
    error_id: Option<Seq<char>>,
    user: Option<Seq<char>>,
) -> Seq<Seq<char>> {
    (match user {
        Some(u) => if u.len() > 0 {
            seq![u]
        } else {
            Seq::empty()
        },
        None => Seq::empty(),
    }) + opt_list(description_id) + opt_list(error_id)
}

/// The merged `aria-describedby` value: the describing ids joined with spaces,
/// or nothing when there are none.
pub open spec fn merged_described_by(
    description_id: Option<Seq<char>>,
    error_id: Option<Seq<char>>,
    user: Option<Seq<char>>,
) -> Option<Seq<char>> {
    let ids = describing_ids(description_id, error_id, user);
    if ids.len() == 0 {
        None
    } else {
        Some(join_space(ids))
    }
}

/// The id of a field's description element.
pub open spec fn description_id_of(id: Seq<char>) -> Seq<char> {
    id + seq!['-', 'd', 'e', 's', 'c', 'r', 'i', 'p', 't', 'i', 'o', 'n']
}

/// The id of a field's error element.
pub open spec fn error_id_of(id: Seq<char>) -> Seq<char> {
    id + seq!['-', 'e', 'r', 'r', 'o', 'r']
}

/// Appends `id` to a space-joined list that holds `ids`.
fn push_id(out: &mut String, count: &mut usize, id: &str, Ghost(ids): Ghost<Seq<Seq<char>>>)
    requires
        old(out)@ == join_space(ids),
        *old(count) == ids.len(),
        ids.len() < usize::MAX,
    ensures
        final(out)@ == join_space(ids.push(id@)),
        *final(count) == ids.len() + 1,
{
    assert(ids.push(id@).drop_last() =~= ids);
    if *count > 0 {
        push_char(out, ' ');
    }
    push_str(out, id);
    *count = *count + 1;
    proof {
        if ids.len() == 0 {
            assert(out@ =~= join_space(ids.push(id@)));
        } else {
            assert(out@ =~= join_space(ids.push(id@)));
        }
    }
}

/// Merges the ids that describe a control into one `aria-describedby` value:
/// the caller's own value when it is not empty, then the description's id, then
/// the error's id, joined with spaces; `None` when there is none.
pub fn merge_described_by(
    description_id: Option<&str>,
    error_id: Option<&str>,
    described_by: Option<&str>,
) -> (r: Option<String>)
    ensures
        opt_string(r) == merged_described_by(
            opt_str(description_id),
            opt_str(error_id),
            opt_str(described_by),
        ),
{
    let mut out = String::new();
    let mut count: usize = 0;
    let ghost mut ids: Seq<Seq<char>> = Seq::empty();
    if let Some(id) = described_by {
        if !id.is_empty() {
            push_id(&mut out, &mut count, id, Ghost(ids));
            proof {
                ids = ids.push(id@);
            }
        }
    }
    if let Some(id) = description_id {
        push_id(&mut out, &mut count, id, Ghost(ids));
        proof {
            ids = ids.push(id@);
        }
    }
    if let Some(id) = error_id {
        push_id(&mut out, &mut count, id, Ghost(ids));
        proof {
            ids = ids.push(id@);
        }
    }
    proof {
        assert(ids =~= describing_ids(opt_str(description_id), opt_str(error_id), opt_str(described_by)));
    }
    if count == 0 {
        None
    } else {
        Some(out)
    }
}

/// `id` followed by `suffix`.
fn suffixed(id: &str, suffix: &str) -> (r: String)
    ensures
        r@ == id@ + suffix@,
{
    let mut s = String::new();
    push_str(&mut s, id);
    push_str(&mut s, suffix);
    assert(s@ =~= id@ + suffix@);
    s
}

/// The `aria-describedby` value of a select or combobox trigger with the given
/// id: the caller's own value when it is not empty, then `{id}-description` when
/// there is a description, then `{id}-error` when there is an error.
pub fn described_by(id: &str, description: bool, error: bool, user_ids: Option<&str>) -> (r:
    Option<String>)
    ensures
        opt_string(r) == merged_described_by(
            if description {
                Some(description_id_of(id@))
            } else {
                None
            },
            if error {
                Some(error_id_of(id@))
            } else {
                None
            },
            opt_str(user_ids),
        ),
{
    proof {
        reveal_strlit("-description");
        reveal_strlit("-error");
    }
    let description_id = if description {
        Some(suffixed(id, "-description"))
    } else {
        None
    };
    let error_id = if error {
        Some(suffixed(id, "-error"))
    } else {
        None
    };
    let d: Option<&str> = match &description_id {
        Some(s) => Some(s.as_str()),
        None => None,
    };
    let e: Option<&str> = match &error_id {
        Some(s) => Some(s.as_str()),
        None => None,
    };
    assert(opt_str(d) == (if description {
        Some(description_id_of(id@))
    } else {
        None
    }));
    assert(opt_str(e) == (if error {
        Some(error_id_of(id@))
    } else {
        None
    }));
    merge_described_by(d, e, user_ids)
}

/// The ids and state a field's label, description and error text share.
pub struct InputFieldTextState {
    pub id: String,
    pub description_id: Option<String>,
    pub error_id: Option<String>,
    pub described_by: Option<String>,
    pub invalid: bool,
}

/// The text state of a field with the given control id: its description and
/// error ids exist when the field has a description or an error, the control is
/// described by them after the caller's own ids, and it is invalid exactly when
/// there is an error.
pub fn build_input_field_text_state(
    id: String,
    has_description: bool,
    has_error: bool,
    described_by: Option<&str>,
) -> (r: InputFieldTextState)
    ensures
        r.id@ == id@,
        opt_string(r.description_id) == (if has_description {
            Some(description_id_of(id@))
        } else {
            None
        }),
        opt_string(r.error_id) == (if has_error {
            Some(error_id_of(id@))
        } else {
            None
        }),
        opt_string(r.described_by) == merged_described_by(
            opt_string(r.description_id),
            opt_string(r.error_id),
            opt_str(described_by),
        ),
        r.invalid == has_error,
{
    proof {
        reveal_strlit("-description");
        reveal_strlit("-error");
    }
    let description_id = if has_description {
        Some(suffixed(id.as_str(), "-description"))
    } else {
        None
    };
    let error_id = if has_error {
        Some(suffixed(id.as_str(), "-error"))
    } else {
        None
    };
    let merged = merge_described_by(
        match &description_id {
            Some(s) => Some(s.as_str()),
            None => None,
        },
        match &error_id {
            Some(s) => Some(s.as_str()),
            None => None,
        },
        described_by,
    );
    InputFieldTextState {
        id,
        description_id,
        error_id,
        described_by: merged,
        invalid: has_error,
    }
}

/// The value of an attribute set on a component, as far as field logic reads it.
pub enum FieldAttributeValue {
    Text(String),
    /// A floating-point value, held as the text it displays as.
    Float(String),
    Int(i64),
    Bool(bool),
    /// Any other kind of value (listeners, any-values, none).
    Other,
}

/// A named attribute set on a component.
pub struct FieldAttribute {
    pub name: String,
    pub value: FieldAttributeValue,
}

/// The decimal text of a signed integer (`i64::to_string`).
pub open spec fn int_text(i: i64) -> Seq<char> {
    if i < 0 {
        seq!['-'] + decimal((-(i as int)) as nat)
    } else {
        decimal(i as nat)
    }
}

/// The text of a boolean (`bool::to_string`).
pub open spec fn bool_text(b: bool) -> Seq<char> {
    if b {
        seq!['t', 'r', 'u', 'e']
    } else {
        seq!['f', 'a', 'l', 's', 'e']
    }
}

/// The text an attribute value reads as, if it has one.
pub open spec fn value_text(v: FieldAttributeValue) -> Option<Seq<char>> {
    match v {
        FieldAttributeValue::Text(s) => Some(s@),
        FieldAttributeValue::Float(s) => Some(s@),
        FieldAttributeValue::Int(i) => Some(int_text(i)),
        FieldAttributeValue::Bool(b) => Some(bool_text(b)),
        FieldAttributeValue::Other => None,
    }
}

/// The truth an attribute value reads as: a boolean is itself, a text is true
/// unless it is `false`, anything else is false.
pub open spec fn value_truth(v: FieldAttributeValue) -> bool {
    match v {
        FieldAttributeValue::Bool(b) => b,
        FieldAttributeValue::Text(s) => s@ != bool_text(false),
        _ => false,
    }
}

/// The index of the first attribute named `name`.
#[verifier::opaque]
pub open spec fn first_named(attrs: Seq<FieldAttribute>, name: Seq<char>) -> Option<int> {
    if exists|i: int| 0 <= i < attrs.len() && #[trigger] attrs[i].name@ == name {
        Some(
            choose|i: int|
                0 <= i < attrs.len() && #[trigger] attrs[i].name@ == name && forall|j: int|
                    0 <= j < i ==> attrs[j].name@ != name,
        )
    } else {
        None
    }
}

/// The text of the first attribute named `name`.
pub open spec fn attribute_text_spec(attrs: Seq<FieldAttribute>, name: Seq<char>) -> Option<Seq<char>> {
    match first_named(attrs, name) {
        Some(i) => value_text(attrs[i].value),
        None => None,
    }
}

/// Whether the first attribute named `name` reads as true.
pub open spec fn attribute_bool_spec(attrs: Seq<FieldAttribute>, name: Seq<char>) -> bool {
    match first_named(attrs, name) {
        Some(i) => value_truth(attrs[i].value),
        None => false,
    }
}

/// Whether two strings are equal.
fn same_text(a: &str, b: &str) -> (r: bool)
    ensures
        r == (a@ == b@),
{
    let x = chars_of(a);
    let y = chars_of(b);
    if x.len() != y.len() {
        return false;
    }
    let mut i: usize = 0;
    while i < x.len()
        invariant
            0 <= i <= x.len(),
            x.len() == y.len(),
            x@ == a@,
            y@ == b@,
            forall|k: int| 0 <= k < i ==> x@[k] == y@[k],
        decreases x.len() - i,
    {
        if x[i] != y[i] {
            return false;
        }
        i = i + 1;
    }
    assert(x@ =~= y@);
    true
}

/// The position of the first attribute named `name`.
fn find_named(attrs: &Vec<FieldAttribute>, name: &str) -> (r: Option<usize>)
    ensures
        match r {
            Some(i) => i < attrs@.len() && first_named(attrs@, name@) == Some(i as int),
            None => first_named(attrs@, name@) is None,
        },
{
    let mut i: usize = 0;
    while i < attrs.len()
        invariant
            0 <= i <= attrs.len(),
            forall|j: int| 0 <= j < i ==> attrs@[j].name@ != name@,
        decreases attrs.len() - i,
    {
        if same_text(attrs[i].name.as_str(), name) {
            proof {
                reveal(first_named);
                let w = i as int;
                assert(0 <= w < attrs@.len() && attrs@[w].name@ == name@ && forall|j: int|
                    0 <= j < w ==> attrs@[j].name@ != name@);
                let c = choose|c: int|
                    0 <= c < attrs@.len() && #[trigger] attrs@[c].name@ == name@ && forall|j: int|
                        0 <= j < c ==> attrs@[j].name@ != name@;
                if c < w {
                } else if c > w {
                    assert(attrs@[w].name@ != name@);
                }
            }
            return Some(i);
        }
        i = i + 1;
    }
    proof {
        reveal(first_named);
    }
    None
}

/// The decimal text of a signed integer.
fn int_to_text(i: i64) -> (r: String)
    ensures
        r@ == int_text(i),
{
    let mut s = String::new();
    if i < 0 {
        push_char(&mut s, '-');
        let m: u64 = if i == i64::MIN {
            9223372036854775808u64
        } else {
            (-i) as u64
        };
        push_decimal(&mut s, m);
    } else {
        push_decimal(&mut s, i as u64);
    }
    assert(s@ =~= int_text(i));
    s
}

/// The text of an attribute value, if it reads as text: texts and
/// floating-point values as they are, integers and booleans as their decimal or
/// `true`/`false` text.
fn value_to_text(v: &FieldAttributeValue) -> (r: Option<String>)
    ensures
        opt_string(r) == value_text(*v),
{
    match v {
        FieldAttributeValue::Text(s) => Some(s.clone()),
        FieldAttributeValue::Float(s) => Some(s.clone()),
        FieldAttributeValue::Int(i) => Some(int_to_text(*i)),
        FieldAttributeValue::Bool(b) => {
            let mut s = String::new();
            proof {
                reveal_strlit("true");
                reveal_strlit("false");
            }
            if *b {
                push_str(&mut s, "true");
            } else {
                push_str(&mut s, "false");
            }
            Some(s)
        },
        FieldAttributeValue::Other => None,
    }
}

/// The text of the first attribute named `name`, if it reads as text.
pub fn attribute_text(attributes: &Vec<FieldAttribute>, name: &str) -> (r: Option<String>)
    ensures
        opt_string(r) == attribute_text_spec(attributes@, name@),
{
    match find_named(attributes, name) {
        Some(i) => value_to_text(&attributes[i].value),
        None => None,
    }
}

/// Whether the first attribute named `name` reads as true: a boolean is itself,
/// a text is true unless it is `false`, anything else (or no such attribute) is
/// false.
pub fn attribute_bool(attributes: &Vec<FieldAttribute>, name: &str) -> (r: bool)
    ensures
        r == attribute_bool_spec(attributes@, name@),
{
    match find_named(attributes, name) {
        Some(i) => match &attributes[i].value {
            FieldAttributeValue::Bool(b) => *b,
            FieldAttributeValue::Text(s) => {
                proof {
                    reveal_strlit("false");
                    assert("false"@ =~= bool_text(false));
                }
                !same_text(s.as_str(), "false")
            },
            _ => false,
        },
        None => false,
    }
}

/// The id, description ids and state of a control whose caller may have set
/// `id` and `aria-describedby` (or `aria_describedby`) as attributes.
pub struct ControlField {
    pub input_id: String,
    pub user_described_by: Option<String>,
    pub described_by: Option<String>,
    pub invalid: bool,
}

/// The id of a control: the caller's `id` attribute, or the generated id.
pub open spec fn control_id_spec(attrs: Seq<FieldAttribute>, generated_id: Seq<char>) -> Seq<char> {
    match attribute_text_spec(attrs, seq!['i', 'd']) {
        Some(id) => id,
        None => generated_id,
    }
}

/// The caller's describing ids: the `aria-describedby` attribute, else the
/// `aria_describedby` attribute, else the `described_by` property.
pub open spec fn user_described_by_spec(attrs: Seq<FieldAttribute>, prop: Option<Seq<char>>) -> Option<
    Seq<char>,
> {
    match attribute_text_spec(attrs, "aria-describedby"@) {
        Some(s) => Some(s),
        None => match attribute_text_spec(attrs, "aria_describedby"@) {
            Some(s) => Some(s),
            None => prop,
        },
    }
}

/// Resolves a text-like control's id and `aria-describedby` from its attributes,
/// its generated id and whether it shows a description and an error.
pub fn resolve_control_field(
    attributes: &Vec<FieldAttribute>,
    generated_id: String,
    described_by: Option<String>,
    has_description: bool,
    has_error: bool,
) -> (r: ControlField)
    ensures
        r.input_id@ == control_id_spec(attributes@, generated_id@),
        opt_string(r.user_described_by) == user_described_by_spec(attributes@, opt_string(described_by)),
        opt_string(r.described_by) == merged_described_by(
            if has_description {
                Some(description_id_of(r.input_id@))
            } else {
                None
            },
            if has_error {
                Some(error_id_of(r.input_id@))
            } else {
                None
            },
            opt_string(r.user_described_by),
        ),
        r.invalid == has_error,
{
    proof {
        reveal_strlit("id");
        assert("id"@ =~= seq!['i', 'd']);
    }
    let input_id = match attribute_text(attributes, "id") {
        Some(id) => id,
        None => generated_id,
    };
    let user = match attribute_text(attributes, "aria-describedby") {
        Some(s) => Some(s),
        None => match attribute_text(attributes, "aria_describedby") {
            Some(s) => Some(s),
            None => described_by,
        },
    };
    let merged = described_by_of(input_id.as_str(), has_description, has_error, &user);
    ControlField { input_id, user_described_by: user, described_by: merged, invalid: has_error }
}

/// [`described_by`] with the caller's ids held as an owned string.
fn described_by_of(id: &str, description: bool, error: bool, user: &Option<String>) -> (r: Option<String>)
    ensures
        opt_string(r) == merged_described_by(
            if description {
                Some(description_id_of(id@))
            } else {
                None
            },
            if error {
                Some(error_id_of(id@))
            } else {
                None
            },
            opt_string(*user),
        ),
{
    match user {
        Some(u) => described_by(id, description, error, Some(u.as_str())),
        None => described_by(id, description, error, None),
    }
}

/// `existing` with `class_name` put in front: the class alone when `existing`
/// is blank, otherwise the class, a space and `existing` trimmed.
pub fn append_class(existing: String, class_name: &str) -> (r: String)
    ensures
        r@ == (if trim_spec(existing@).len() == 0 {
            class_name@
        } else {
            class_name@ + seq![' '] + trim_spec(existing@)
        }),
{
    let chars = chars_of(existing.as_str());
    let lo = trim_start_index(&chars);
    let hi = trim_end_index(&chars, lo);
    proof {
        assert(chars@.skip(lo as int) =~= chars@.subrange(lo as int, chars@.len() as int));
        assert(trim_spec(existing@) == chars@.subrange(lo as int, hi as int));
    }
    let mut out = String::new();
    push_str(&mut out, class_name);
    if lo < hi {
        push_char(&mut out, ' ');
        let trimmed = string_of_range(&chars, lo, hi);
        push_str(&mut out, trimmed.as_str());
    }
    assert(out@ =~= (if trim_spec(existing@).len() == 0 {
        class_name@
    } else {
        class_name@ + seq![' '] + trim_spec(existing@)
    }));
    out
}

/// Whether a password field shows its text, and the last value its owner
/// controlled it with.
pub struct VisibilityState {
    pub shown: bool,
    pub last_controlled: Option<bool>,
}

/// The state after the owner renders with `controlled`: a new controlled value
/// is taken over, a change to uncontrolled keeps what is shown.
pub open spec fn synced(s: VisibilityState, controlled: Option<bool>) -> VisibilityState {
    if controlled != s.last_controlled {
        VisibilityState {
            shown: match controlled {
                Some(v) => v,
                None => s.shown,
            },
            last_controlled: controlled,
        }
    } else {
        s
    }
}

/// The state after a press of the toggle: an uncontrolled field shows the
/// opposite of what it showed, a controlled one waits for its owner.
pub open spec fn toggled(s: VisibilityState, controlled: Option<bool>) -> VisibilityState {
    if controlled is None {
        VisibilityState { shown: !s.shown, last_controlled: s.last_controlled }
    } else {
        s
    }
}

impl VisibilityState {
    /// The state at first render: the controlled value if there is one,
    /// otherwise the default.
    pub fn new(controlled: Option<bool>, default_visible: bool) -> (r: VisibilityState)
        ensures
            r.shown == (match controlled {
                Some(v) => v,
                None => default_visible,
            }),
            r.last_controlled == controlled,
    {
        let shown = match controlled {
            Some(v) => v,
            None => default_visible,
        };
        VisibilityState { shown, last_controlled: controlled }
    }

    /// Follows the owner's controlled value at a render.
    pub fn sync(&mut self, controlled: Option<bool>)
        ensures
            *final(self) == synced(*old(self), controlled),
    {
        let changed = match (controlled, self.last_controlled) {
            (Some(a), Some(b)) => a != b,
            (None, None) => false,
            _ => true,
        };
        if changed {
            self.last_controlled = controlled;
            if let Some(v) = controlled {
                self.shown = v;
            }
        }
    }

    /// A press of the toggle: returns the visibility requested of the owner,
    /// the opposite of what is shown.
    pub fn toggle(&mut self, controlled: Option<bool>) -> (requested: bool)
        ensures
            requested == !old(self).shown,
            *final(self) == toggled(*old(self), controlled),
    {
        let next = !self.shown;
        if controlled.is_none() {
            self.shown = next;
        }
        next
    }
}

/// The `type` of a password field's input: `text` while shown, else `password`.
pub fn password_input_type(shown: bool) -> (r: &'static str)
    ensures
        shown ==> r@ == "text"@,
        !shown ==> r@ == "password"@,
{
    if shown {
        "text"
    } else {
        "password"
    }
}

/// Toggling an uncontrolled password field twice shows what it showed before,
/// and toggling a controlled one changes nothing until its owner answers.
pub proof fn law_toggle_twice_restores(state: VisibilityState, controlled: Option<bool>)
    ensures
        toggled(toggled(state, None), None) == state,
        controlled is Some ==> toggled(state, controlled) == state,
{
}

/// A controlled field remembers the value its owner renders; it shows a value
/// the owner renders anew, and a render of the value it last saw changes nothing.
pub proof fn law_sync_follows_owner(state: VisibilityState, value: bool)
    ensures
        synced(state, Some(value)).last_controlled == Some(value),
        state.last_controlled != Some(value) ==> synced(state, Some(value)).shown == value,
        state.last_controlled == Some(value) ==> synced(state, Some(value)) == state,
{
}

} // verus!
